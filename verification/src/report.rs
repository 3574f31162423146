//! The report of a run: its figures, its lists, and its text.
//!
//! The text is laid out section by section. Two things in it are not decided
//! here: the time at which the report was made, and the form in which the
//! path of a file is shown, which is that of the platform.

use crate::config::{valid_versions_for, Config};
use crate::format::{append_joined, decimal_digits, decimal_text, joined_with, sorted, sorted_texts};
use crate::git_manager::{short_name, short_repo_name};
use crate::string_map::{StringMap, StringSet};
use crate::task_issues::{total_len, IssuesModel, TaskIssues};
use crate::task_types::{Sighting, TaskImplementation};
use vstd::prelude::*;
use vstd::string::StringExecFns;

verus! {

/// The figures of the summary of a report.
#[derive(Debug, Clone, Copy, PartialEq, Eq, Structural)]
pub struct ReportSummary {
    /// The repositories that were reached.
    pub repos_analyzed: usize,
    /// The repositories that hold no pipeline file.
    pub repos_skipped: usize,
    /// The repositories that were scanned and have an issue.
    pub repos_with_issues: usize,
    /// The registered tasks that repositories do not use, over all
    /// repositories.
    pub missing_task_implementations: usize,
    /// The sightings with a version that the registry does not list.
    pub invalid_state_implementations: usize,
}

/// A count as it is reported: the largest number that the machine holds
/// where the count is larger.
pub open spec fn saturated(n: nat) -> usize {
    if n <= usize::MAX {
        n as usize
    } else {
        usize::MAX
    }
}

/// The number of items in all the lists of all of `maps`.
pub open spec fn nested_total_len<T>(maps: Seq<StringMap<Vec<T>>>) -> nat
    decreases maps.len(),
{
    if maps.len() == 0 {
        0
    } else {
        nested_total_len(maps.drop_last()) + total_len(maps.last().value_seq())
    }
}

/// Whether a sighting of `task` in `repo` is recorded.
pub open spec fn seen_in(issues: IssuesModel, task: Seq<char>, repo: Seq<char>) -> bool {
    &&& issues.all_implementations.dom().contains(task)
    &&& exists|j: int|
        0 <= j < issues.all_implementations[task].len() && (
        #[trigger] issues.all_implementations[task][j]).repo_name == repo
}

/// Whether `repo` has an issue: a registered task is missing from it, a
/// sighting in it is invalid, or it uses a task that is not configured.
pub open spec fn has_issue(issues: IssuesModel, repo: Seq<char>) -> bool {
    ||| issues.missing_required_tasks.dom().contains(repo)
    ||| exists|task: Seq<char>|
        issues.invalid_states.dom().contains(task) && (#[trigger] issues.invalid_states[task]).dom().contains(
            repo,
        )
    ||| exists|task: Seq<char>|
        issues.missing_states.dom().contains(task) && #[trigger] seen_in(issues, task, repo)
}

/// The repositories that were scanned and have an issue.
pub open spec fn repos_with_issues(issues: IssuesModel) -> Set<Seq<char>> {
    Set::new(
        |repo: Seq<char>|
            issues.repos_analyzed.contains(repo) && !issues.repos_skipped.contains(repo)
                && has_issue(issues, repo),
    )
}

/// Adds two counts, up to the largest number that the machine holds.
fn add_saturating(a: usize, b: usize) -> (sum: usize)
    ensures
        sum == saturated((a + b) as nat),
{
    if a > usize::MAX - b {
        usize::MAX
    } else {
        a + b
    }
}

/// The number of items in all the lists of a map.
pub fn count_items<T>(map: &StringMap<Vec<T>>) -> (count: usize)
    requires
        map.wf(),
    ensures
        count == saturated(total_len(map.value_seq())),
{
    let ghost lists = map.value_seq();
    let n = map.len();
    let mut count: usize = 0;
    let mut i: usize = 0;
    proof {
        assert(lists.take(0) =~= Seq::<Vec<T>>::empty());
    }
    while i < n
        invariant
            map.wf(),
            lists == map.value_seq(),
            n == lists.len(),
            i <= n,
            count == saturated(total_len(lists.take(i as int))),
        decreases n - i,
    {
        proof {
            assert(lists.take(i + 1).drop_last() =~= lists.take(i as int));
            assert(lists.take(i + 1).last() == lists[i as int]);
        }
        count = add_saturating(count, map.value_at(i).len());
        i += 1;
    }
    proof {
        assert(lists.take(n as int) =~= lists);
    }
    count
}

/// The number of items in all the lists of all the maps of a map.
pub fn count_nested_items<T: DeepView>(map: &StringMap<StringMap<Vec<T>>>) -> (count: usize)
    requires
        map.nested_wf(),
    ensures
        count == saturated(nested_total_len(map.value_seq())),
{
    let ghost maps = map.value_seq();
    let n = map.len();
    let mut count: usize = 0;
    let mut i: usize = 0;
    proof {
        assert(maps.take(0) =~= Seq::<StringMap<Vec<T>>>::empty());
    }
    while i < n
        invariant
            map.nested_wf(),
            maps == map.value_seq(),
            n == maps.len(),
            i <= n,
            count == saturated(nested_total_len(maps.take(i as int))),
        decreases n - i,
    {
        proof {
            assert(maps.take(i + 1).drop_last() =~= maps.take(i as int));
            assert(maps.take(i + 1).last() == maps[i as int]);
        }
        count = add_saturating(count, count_items(map.value_at(i)));
        i += 1;
    }
    proof {
        assert(maps.take(n as int) =~= maps);
    }
    count
}

/// Whether some sighting of `list` was made in `repo`.
fn any_in_repo(list: &Vec<TaskImplementation>, repo: &str) -> (r: bool)
    ensures
        r == exists|j: int| 0 <= j < list.len() && (#[trigger] list.deep_view()[j]).repo_name == repo@,
{
    let mut j: usize = 0;
    while j < list.len()
        invariant
            j <= list.len(),
            forall|k: int| 0 <= k < j ==> (#[trigger] list.deep_view()[k]).repo_name != repo@,
        decreases list.len() - j,
    {
        if *list[j].repo_name.as_str() == *repo {
            assert(list.deep_view()[j as int].repo_name == repo@);
            return true;
        }
        assert(list.deep_view()[j as int] == list[j as int]@);
        j += 1;
    }
    false
}

/// Whether a sighting in `repo` is noted as invalid.
fn has_invalid_state(issues: &TaskIssues, repo: &str) -> (r: bool)
    requires
        issues.wf(),
    ensures
        r == exists|task: Seq<char>|
            issues@.invalid_states.dom().contains(task) && (#[trigger] issues@.invalid_states[task]).dom().contains(
                repo@,
            ),
{
    let map = &issues.invalid_states;
    let n = map.len();
    let mut i: usize = 0;
    while i < n
        invariant
            issues.wf(),
            map == &issues.invalid_states,
            n == map.key_seq().len(),
            i <= n,
            forall|k: int| 0 <= k < i ==> !(#[trigger] map.value_seq()[k]).has(repo@),
        decreases n - i,
    {
        if map.value_at(i).contains_key(repo) {
            proof {
                map.lemma_slot(i as int);
                let task = map.key_seq()[i as int];
                assert(issues@.invalid_states.dom().contains(task));
                assert(issues@.invalid_states[task].dom().contains(repo@));
            }
            return true;
        }
        i += 1;
    }
    proof {
        assert forall|task: Seq<char>|
            issues@.invalid_states.dom().contains(task) implies !(
            #[trigger] issues@.invalid_states[task]).dom().contains(repo@) by {
            map.lemma_has(task);
            map.lemma_slot(map.slot(task));
        }
    }
    false
}

/// Whether `repo` uses a task that is not configured.
fn uses_unconfigured_task(issues: &TaskIssues, repo: &str) -> (r: bool)
    requires
        issues.wf(),
    ensures
        r == exists|task: Seq<char>|
            issues@.missing_states.dom().contains(task) && #[trigger] seen_in(issues@, task, repo@),
{
    let names = &issues.missing_states;
    let n = names.len();
    let mut i: usize = 0;
    while i < n
        invariant
            issues.wf(),
            names == &issues.missing_states,
            n == names.key_seq().len(),
            i <= n,
            forall|k: int| 0 <= k < i ==> !seen_in(issues@, #[trigger] names.key_seq()[k], repo@),
        decreases n - i,
    {
        let task = names.key_at(i);
        let seen = match issues.all_implementations.get(task.as_str()) {
            Some(list) => {
                proof {
                    assert(issues@.all_implementations[task@] == list.deep_view());
                }
                any_in_repo(list, repo)
            },
            None => false,
        };
        if seen {
            proof {
                names.lemma_slot(i as int);
                assert(issues@.missing_states.dom().contains(task@));
                assert(seen_in(issues@, task@, repo@));
            }
            return true;
        }
        i += 1;
    }
    proof {
        assert forall|task: Seq<char>| issues@.missing_states.dom().contains(task) implies !(
        #[trigger] seen_in(issues@, task, repo@)) by {
            names.lemma_has(task);
        }
    }
    false
}

/// Whether `repo` has an issue.
pub fn repo_has_issue(issues: &TaskIssues, repo: &str) -> (r: bool)
    requires
        issues.wf(),
    ensures
        r == has_issue(issues@, repo@),
{
    issues.missing_required_tasks.contains_key(repo) || has_invalid_state(issues, repo)
        || uses_unconfigured_task(issues, repo)
}

/// The figures of the summary of what a run has found.
pub open spec fn summary_of(issues: &TaskIssues) -> ReportSummary {
    ReportSummary {
        repos_analyzed: issues@.repos_analyzed.len() as usize,
        repos_skipped: issues@.repos_skipped.len() as usize,
        repos_with_issues: repos_with_issues(issues@).len() as usize,
        missing_task_implementations: saturated(
            total_len(issues.missing_required_tasks.value_seq()),
        ),
        invalid_state_implementations: saturated(
            nested_total_len(issues.invalid_states.value_seq()),
        ),
    }
}

/// The figures of the summary of a report.
pub fn summarize(issues: &TaskIssues) -> (summary: ReportSummary)
    requires
        issues.wf(),
    ensures
        summary == summary_of(issues),
        summary.repos_analyzed == issues@.repos_analyzed.len(),
        summary.repos_skipped == issues@.repos_skipped.len(),
        summary.repos_with_issues == repos_with_issues(issues@).len(),
{
    let analyzed = &issues.repos_analyzed;
    let ghost all = analyzed.item_seq();
    let n = analyzed.len();
    let mut with_issues: usize = 0;
    let ghost mut counted: Seq<Seq<char>> = Seq::empty();
    let mut i: usize = 0;
    while i < n
        invariant
            issues.wf(),
            analyzed == &issues.repos_analyzed,
            all == analyzed.item_seq(),
            n == all.len(),
            i <= n,
            with_issues == counted.len(),
            with_issues <= i,
            counted.no_duplicates(),
            forall|repo: Seq<char>|
                counted.contains(repo) <==> (exists|k: int| 0 <= k < i && #[trigger] all[k] == repo)
                    && repos_with_issues(issues@).contains(repo),
        decreases n - i,
    {
        let repo = analyzed.item_at(i);
        let ghost before = counted;
        if !issues.repos_skipped.contains(repo.as_str()) && repo_has_issue(issues, repo.as_str()) {
            proof {
                assert(!before.contains(repo@)) by {
                    if before.contains(repo@) {
                        let k = choose|k: int| 0 <= k < i && #[trigger] all[k] == repo@;
                        assert(all[k] == all[i as int]);
                    }
                }
                counted = before.push(repo@);
                assert(all.contains(repo@));
                assert(repos_with_issues(issues@).contains(repo@));
            }
            with_issues = with_issues + 1;
        }
        proof {
            assert forall|r: Seq<char>| counted.contains(r) <==> (exists|k: int|
                0 <= k < i + 1 && #[trigger] all[k] == r) && repos_with_issues(issues@).contains(
                r,
            ) by {
                if counted.contains(r) {
                    if before.contains(r) {
                        let k = choose|k: int| 0 <= k < i && #[trigger] all[k] == r;
                        assert(0 <= k < i + 1 && all[k] == r);
                    } else {
                        assert(r == repo@);
                        assert(all[i as int] == r);
                    }
                }
                if (exists|k: int| 0 <= k < i + 1 && #[trigger] all[k] == r) && repos_with_issues(
                    issues@,
                ).contains(r) {
                    let k = choose|k: int| 0 <= k < i + 1 && #[trigger] all[k] == r;
                    if k < i {
                        assert(before.contains(r));
                        let j = choose|j: int| 0 <= j < before.len() && before[j] == r;
                        assert(counted[j] == r);
                    } else {
                        assert(r == repo@);
                        assert(counted[counted.len() - 1] == r);
                    }
                }
            }
        }
        i += 1;
    }
    proof {
        assert(counted.to_set() =~= repos_with_issues(issues@)) by {
            assert forall|r: Seq<char>| counted.to_set().contains(r) <==> repos_with_issues(
                issues@,
            ).contains(r) by {
                if repos_with_issues(issues@).contains(r) {
                    assert(all.to_set().contains(r));
                    let k = choose|k: int| 0 <= k < all.len() && all[k] == r;
                    assert(0 <= k < n && all[k] == r);
                }
            }
        }
        counted.unique_seq_to_set();
        analyzed.item_seq().unique_seq_to_set();
        issues.repos_skipped.item_seq().unique_seq_to_set();
    }
    ReportSummary {
        repos_analyzed: n,
        repos_skipped: issues.repos_skipped.len(),
        repos_with_issues: with_issues,
        missing_task_implementations: count_items(&issues.missing_required_tasks),
        invalid_state_implementations: count_nested_items(&issues.invalid_states),
    }
}

/// A task in a valid state, as the report lists it.
#[derive(Debug, Clone, PartialEq, Eq)]
pub struct ValidTask {
    /// The normalized name of the task.
    pub task_name: String,
    /// The version of its first sighting.
    pub version: String,
    /// The short names of the repositories that use it, each once, in the
    /// order of their first sighting.
    pub repos: Vec<String>,
}

/// The mathematical value of a [`ValidTask`].
pub struct ValidTaskModel {
    pub task_name: Seq<char>,
    pub version: Seq<char>,
    pub repos: Seq<Seq<char>>,
}

impl DeepView for ValidTask {
    type V = ValidTaskModel;

    open spec fn deep_view(&self) -> ValidTaskModel {
        ValidTaskModel {
            task_name: self.task_name@,
            version: self.version@,
            repos: self.repos.deep_view(),
        }
    }
}

/// The short names of the repositories of `sightings`, each once, in the
/// order of their first sighting.
pub open spec fn repo_names(sightings: Seq<Sighting>) -> Seq<Seq<char>>
    decreases sightings.len(),
{
    if sightings.len() == 0 {
        Seq::empty()
    } else {
        let before = repo_names(sightings.drop_last());
        let name = short_name(sightings.last().repo_name);
        if before.contains(name) {
            before
        } else {
            before.push(name)
        }
    }
}

/// Whether `task` is in a valid state: it was seen, and no sighting of it is
/// noted as invalid.
pub open spec fn is_valid_task(issues: IssuesModel, task: Seq<char>) -> bool {
    &&& issues.all_implementations.dom().contains(task)
    &&& issues.all_implementations[task].len() > 0
    &&& !issues.invalid_states.dom().contains(task)
}

/// The tasks among `task_names` that are in a valid state, in their order.
pub open spec fn valid_tasks_among(issues: IssuesModel, task_names: Seq<Seq<char>>) -> Seq<
    ValidTaskModel,
>
    decreases task_names.len(),
{
    if task_names.len() == 0 {
        Seq::empty()
    } else {
        let before = valid_tasks_among(issues, task_names.drop_last());
        let task = task_names.last();
        if is_valid_task(issues, task) {
            before.push(
                ValidTaskModel {
                    task_name: task,
                    version: issues.all_implementations[task].first().version,
                    repos: repo_names(issues.all_implementations[task]),
                },
            )
        } else {
            before
        }
    }
}

/// The short names of the repositories of `list`, each once.
fn distinct_repo_names(list: &Vec<TaskImplementation>) -> (names: Vec<String>)
    ensures
        names.deep_view() == repo_names(list.deep_view()),
{
    let ghost sightings = list.deep_view();
    let mut names = StringSet::new();
    let mut i: usize = 0;
    proof {
        assert(sightings.take(0) =~= Seq::<Sighting>::empty());
    }
    while i < list.len()
        invariant
            sightings == list.deep_view(),
            i <= list.len(),
            names.wf(),
            names.item_seq() == repo_names(sightings.take(i as int)),
        decreases list.len() - i,
    {
        proof {
            assert(sightings.take(i + 1).drop_last() =~= sightings.take(i as int));
            assert(sightings.take(i + 1).last() == list[i as int]@);
        }
        names.insert(short_repo_name(list[i].repo_name.as_str()));
        i += 1;
    }
    proof {
        assert(sightings.take(list.len() as int) =~= sightings);
    }
    let mut out: Vec<String> = Vec::new();
    let count = names.len();
    let mut k: usize = 0;
    while k < count
        invariant
            count == names.item_seq().len(),
            k <= count,
            out.len() == k,
            forall|j: int| 0 <= j < k ==> (#[trigger] out[j])@ == names.item_seq()[j],
        decreases count - k,
    {
        out.push(names.item_at(k).clone());
        k += 1;
    }
    assert(out.deep_view() =~= names.item_seq());
    out
}

/// The registered tasks that are in a valid state, in the order of the
/// registry: each with the version of its first sighting and the
/// repositories that use it.
pub fn valid_tasks(issues: &TaskIssues, config: &Config) -> (tasks: Vec<ValidTask>)
    requires
        issues.wf(),
        config.wf(),
    ensures
        tasks.deep_view() == valid_tasks_among(issues@, config.task_names()),
{
    let ghost names = config.task_names();
    let n = config.task_versions.len();
    let mut tasks: Vec<ValidTask> = Vec::new();
    let mut i: usize = 0;
    proof {
        assert(names.take(0) =~= Seq::<Seq<char>>::empty());
        assert(tasks.deep_view() =~= Seq::<ValidTaskModel>::empty());
    }
    while i < n
        invariant
            issues.wf(),
            config.wf(),
            names == config.task_names(),
            n == names.len(),
            i <= n,
            tasks.deep_view() == valid_tasks_among(issues@, names.take(i as int)),
        decreases n - i,
    {
        let task = config.task_versions.key_at(i);
        proof {
            assert(names.take(i + 1).drop_last() =~= names.take(i as int));
            assert(names.take(i + 1).last() == task@);
        }
        match issues.all_implementations.get(task.as_str()) {
            Some(list) => {
                proof {
                    assert(issues@.all_implementations[task@] == list.deep_view());
                }
                if list.len() > 0 && !issues.invalid_states.contains_key(task.as_str()) {
                    let ghost so_far = tasks.deep_view();
                    let entry = ValidTask {
                        task_name: task.clone(),
                        version: list[0].version.clone(),
                        repos: distinct_repo_names(list),
                    };
                    let ghost added = entry.deep_view();
                    proof {
                        assert(list.deep_view().first() == list[0]@);
                    }
                    tasks.push(entry);
                    proof {
                        assert(tasks.deep_view() =~= so_far.push(added));
                    }
                }
            },
            None => {},
        }
        i += 1;
    }
    proof {
        assert(names.take(n as int) =~= names);
    }
    tasks
}

/// The name under which a task is shown: as it was written where the task
/// is not configured, and else its normalized name.
pub fn shown_task_name(issues: &TaskIssues, task: &str) -> (name: String)
    requires
        issues.wf(),
    ensures
        name@ == if issues@.missing_states.dom().contains(task@) {
            issues@.missing_states[task@]
        } else {
            task@
        },
{
    match issues.missing_states.get(task) {
        Some(written) => written.clone(),
        None => task.to_owned(),
    }
}

// ---------------------------------------------------------------------------
// The text of the report
// ---------------------------------------------------------------------------

/// The layout of the time at which a report was made.
pub open spec fn timestamp_format() -> Seq<char> {
    "%Y-%m-%d %H:%M:%S"@
}

/// `Local::now` and `DateTime::format` of the crate `chrono`: the local time
/// at the call, laid out by `format`. The result depends on the clock and on
/// the time zone of the machine; nothing is stated of it. Only the one
/// layout that the report uses is admitted, which `chrono` knows. `chrono`
/// gives no time where the clock of the machine stands before 1970.
#[verifier::external_body]
fn local_time(format: &str) -> (text: String)
    requires
        format@ == timestamp_format(),
{
    chrono::Local::now().format(format).to_string()
}

/// `Path::strip_prefix` of the standard library: what is left of `path`
/// below `base`, where `path` begins with `base`. Paths are split into
/// components as the platform does it; nothing is stated of the result.
#[verifier::external_body]
fn strip_path_prefix(path: &str, base: &str) -> (rest: Option<String>) {
    match std::path::Path::new(path).strip_prefix(base) {
        Ok(rest) => Some(rest.display().to_string()),
        Err(_) => None,
    }
}

/// The entry of a repository in a list: its short name, linked to its
/// address.
pub open spec fn repo_link(repo: Seq<char>) -> Seq<char> {
    "- ["@ + short_name(repo) + "]("@ + repo + ")"@
}

/// The list of the repositories that were scanned: those of `repos` that
/// were not skipped, in their order.
pub open spec fn analyzed_list_text(repos: Seq<Seq<char>>, skipped: Set<Seq<char>>) -> Seq<char>
    decreases repos.len(),
{
    if repos.len() == 0 {
        Seq::empty()
    } else if skipped.contains(repos.last()) {
        analyzed_list_text(repos.drop_last(), skipped)
    } else {
        analyzed_list_text(repos.drop_last(), skipped) + repo_link(repos.last()) + "\n"@
    }
}

/// The list of the repositories that were skipped.
pub open spec fn skipped_list_text(skipped: Seq<Seq<char>>) -> Seq<char>
    decreases skipped.len(),
{
    if skipped.len() == 0 {
        Seq::empty()
    } else {
        skipped_list_text(skipped.drop_last()) + repo_link(skipped.last())
            + " (no pipeline files found)\n"@
    }
}

/// The head of the report: its title, the time at which it was made, the
/// repositories that were scanned, and those that were skipped, if any.
pub open spec fn header_text(
    repos: Seq<Seq<char>>,
    skipped: Seq<Seq<char>>,
    timestamp: Seq<char>,
) -> Seq<char> {
    "# 📊 Pipeline Task Analysis Report\n\n"@ + "🕒 Generated on: "@ + timestamp + "\n\n"@
        + "## 📚 Analyzed Repositories\n\n"@ + analyzed_list_text(repos, skipped.to_set()) + "\n"@
        + if skipped.len() > 0 {
        "## ⏭️ Skipped Repositories\n\n"@ + skipped_list_text(skipped) + "\n"@
    } else {
        Seq::empty()
    }
}

/// The summary of the report: its figures, one per line. The skipped
/// repositories are counted only where there are any.
pub open spec fn summary_text(summary: ReportSummary) -> Seq<char> {
    "## 📈 Summary\n\n"@ + "- 🏢 Total repositories analyzed: "@ + decimal_digits(
        summary.repos_analyzed as nat,
    ) + "\n"@ + (if summary.repos_skipped > 0 {
        "- ⏭️ Skipped repositories: "@ + decimal_digits(summary.repos_skipped as nat) + "\n"@
    } else {
        Seq::empty()
    }) + "- ⚠️ Repositories with issues: "@ + decimal_digits(summary.repos_with_issues as nat)
        + "\n"@ + "- ❌ Total missing task implementations: "@ + decimal_digits(
        summary.missing_task_implementations as nat,
    ) + "\n"@ + "- ⚡ Total invalid state implementations: "@ + decimal_digits(
        summary.invalid_state_implementations as nat,
    ) + "\n"@ + "\n"@
}

/// The line of a task in a valid state: its name, the version of its first
/// sighting, and the repositories that use it.
pub open spec fn valid_task_line(task: ValidTaskModel) -> Seq<char> {
    "- "@ + task.task_name + " v"@ + task.version + " ("@ + joined_with(task.repos, ", "@) + ")"@
}

/// The lines of the tasks in a valid state, in the order of the tasks.
pub open spec fn valid_task_lines(tasks: Seq<ValidTaskModel>) -> Seq<Seq<char>> {
    Seq::new(tasks.len(), |i: int| valid_task_line(tasks[i]))
}

/// Lines, each with its line feed.
pub open spec fn lines_text(lines: Seq<Seq<char>>) -> Seq<char>
    decreases lines.len(),
{
    if lines.len() == 0 {
        Seq::empty()
    } else {
        lines_text(lines.drop_last()) + lines.last() + "\n"@
    }
}

/// Names, each as an entry of a list on a line of its own.
pub open spec fn bullet_lines_text(names: Seq<Seq<char>>) -> Seq<char>
    decreases names.len(),
{
    if names.len() == 0 {
        Seq::empty()
    } else {
        bullet_lines_text(names.drop_last()) + "- "@ + names.last() + "\n"@
    }
}

/// The section of the tasks in a valid state: their lines, in the order of
/// the dictionary.
pub open spec fn valid_states_text(tasks: Seq<ValidTaskModel>) -> Seq<char> {
    "## ✅ Valid Task States\n\n"@ + if tasks.len() == 0 {
        "No tasks are currently in a valid state.\n\n"@
    } else {
        lines_text(sorted(valid_task_lines(tasks))) + "\n"@
    }
}

/// The section of the tasks that are not configured: their names as they
/// were written, in the order of the dictionary.
pub open spec fn missing_states_text(names: Seq<Seq<char>>) -> Seq<char> {
    "## ❌ Tasks with Missing Valid States\n\n"@ + bullet_lines_text(sorted(names))
        + "\nConsider adding these tasks to your `ciprobeconfig.yml` with the appropriate valid versions.\n\n"@
}

/// An invalid sighting, as the report shows it.
#[derive(Debug, Clone, PartialEq, Eq)]
pub struct InvalidEntry {
    /// The version that was pinned.
    pub version: String,
    /// The path of the file that pins it, as it is shown.
    pub shown_path: String,
}

/// The invalid sightings of a task in one repository.
#[derive(Debug, Clone, PartialEq, Eq)]
pub struct InvalidRepo {
    /// The address of the repository.
    pub repo_url: String,
    /// The sightings, in the order in which they were recorded.
    pub entries: Vec<InvalidEntry>,
}

/// The invalid sightings of a task.
#[derive(Debug, Clone, PartialEq, Eq)]
pub struct InvalidTask {
    /// The name under which the task is shown.
    pub shown_name: String,
    /// The versions that the registry lists for the task.
    pub expected: Vec<String>,
    /// The repositories with invalid sightings of the task.
    pub repos: Vec<InvalidRepo>,
}

/// The mathematical value of an [`InvalidEntry`].
pub struct InvalidEntryModel {
    pub version: Seq<char>,
    pub shown_path: Seq<char>,
}

/// The mathematical value of an [`InvalidRepo`].
pub struct InvalidRepoModel {
    pub repo_url: Seq<char>,
    pub entries: Seq<InvalidEntryModel>,
}

/// The mathematical value of an [`InvalidTask`].
pub struct InvalidTaskModel {
    pub shown_name: Seq<char>,
    pub expected: Seq<Seq<char>>,
    pub repos: Seq<InvalidRepoModel>,
}

impl DeepView for InvalidEntry {
    type V = InvalidEntryModel;

    open spec fn deep_view(&self) -> InvalidEntryModel {
        InvalidEntryModel { version: self.version@, shown_path: self.shown_path@ }
    }
}

impl DeepView for InvalidRepo {
    type V = InvalidRepoModel;

    open spec fn deep_view(&self) -> InvalidRepoModel {
        InvalidRepoModel { repo_url: self.repo_url@, entries: self.entries.deep_view() }
    }
}

impl DeepView for InvalidTask {
    type V = InvalidTaskModel;

    open spec fn deep_view(&self) -> InvalidTaskModel {
        InvalidTaskModel {
            shown_name: self.shown_name@,
            expected: self.expected.deep_view(),
            repos: self.repos.deep_view(),
        }
    }
}

/// The name under which a task is shown: as it was written where the task
/// is not configured, and else its normalized name.
pub open spec fn shown_name(issues: IssuesModel, task: Seq<char>) -> Seq<char> {
    if issues.missing_states.dom().contains(task) {
        issues.missing_states[task]
    } else {
        task
    }
}

/// The entries show the sightings, one for one: each with the version of its
/// sighting. How the paths are shown is left open.
pub open spec fn shows_sightings(entries: Seq<InvalidEntryModel>, sightings: Seq<Sighting>) -> bool {
    &&& entries.len() == sightings.len()
    &&& forall|e: int|
        0 <= e < entries.len() ==> (#[trigger] entries[e]).version == sightings[e].version
}

/// The repositories show the invalid sightings of one task, repository for
/// repository.
pub open spec fn shows_repos(
    repos: Seq<InvalidRepoModel>,
    by_repo: StringMap<Vec<TaskImplementation>>,
) -> bool {
    &&& repos.len() == by_repo.key_seq().len()
    &&& forall|r: int|
        0 <= r < repos.len() ==> {
            &&& (#[trigger] repos[r]).repo_url == by_repo.key_seq()[r]
            &&& shows_sightings(repos[r].entries, by_repo.value_seq()[r].deep_view())
        }
}

/// The tasks show the invalid sightings of a run, task for task: each under
/// its shown name, with the versions that the registry lists for it.
pub open spec fn shows_invalid_states(
    tasks: Seq<InvalidTaskModel>,
    issues: &TaskIssues,
    registry: Map<Seq<char>, Seq<Seq<char>>>,
) -> bool {
    &&& tasks.len() == issues.invalid_states.key_seq().len()
    &&& forall|t: int|
        0 <= t < tasks.len() ==> {
            &&& (#[trigger] tasks[t]).shown_name == shown_name(
                issues@,
                issues.invalid_states.key_seq()[t],
            )
            &&& tasks[t].expected == valid_versions_for(
                registry,
                issues.invalid_states.key_seq()[t],
            )
            &&& shows_repos(tasks[t].repos, issues.invalid_states.value_seq()[t])
        }
}

/// The lines of the invalid sightings of a task in one repository.
pub open spec fn invalid_entries_text(entries: Seq<InvalidEntryModel>) -> Seq<char>
    decreases entries.len(),
{
    if entries.len() == 0 {
        Seq::empty()
    } else {
        invalid_entries_text(entries.drop_last()) + "- Version "@ + entries.last().version
            + " in `"@ + entries.last().shown_path + "`\n"@
    }
}

/// The invalid sightings of a task, repository by repository.
pub open spec fn invalid_repos_text(repos: Seq<InvalidRepoModel>) -> Seq<char>
    decreases repos.len(),
{
    if repos.len() == 0 {
        Seq::empty()
    } else {
        invalid_repos_text(repos.drop_last()) + "#### 📁 ["@ + short_name(repos.last().repo_url)
            + "]("@ + repos.last().repo_url + ")\n\n"@ + invalid_entries_text(repos.last().entries)
            + "\n"@
    }
}

/// The invalid sightings of a run, task by task.
pub open spec fn invalid_tasks_text(tasks: Seq<InvalidTaskModel>) -> Seq<char>
    decreases tasks.len(),
{
    if tasks.len() == 0 {
        Seq::empty()
    } else {
        invalid_tasks_text(tasks.drop_last()) + "### 🔧 "@ + tasks.last().shown_name
            + " (expected: "@ + joined_with(tasks.last().expected, " or "@) + ")\n\n"@
            + invalid_repos_text(tasks.last().repos)
    }
}

/// The section of the invalid sightings.
pub open spec fn invalid_states_text(tasks: Seq<InvalidTaskModel>) -> Seq<char> {
    "## ⚠️ Invalid Task States\n\n"@ + if tasks.len() == 0 {
        "No invalid task states found.\n\n"@
    } else {
        invalid_tasks_text(tasks)
    }
}

/// The report of a run: its head and its summary, and then, each only where
/// there is something to show, the tasks in a valid state, the invalid
/// sightings and the tasks that are not configured.
pub open spec fn report_text(
    repos: Seq<Seq<char>>,
    issues: &TaskIssues,
    config: &Config,
    timestamp: Seq<char>,
    invalid: Seq<InvalidTaskModel>,
) -> Seq<char> {
    header_text(repos, issues.repos_skipped.item_seq(), timestamp) + summary_text(
        summary_of(issues),
    ) + (if issues.all_implementations.key_seq().len() > 0 {
        valid_states_text(valid_tasks_among(issues@, config.task_names()))
    } else {
        Seq::empty()
    }) + (if issues.invalid_states.key_seq().len() > 0 {
        invalid_states_text(invalid)
    } else {
        Seq::empty()
    }) + (if issues.missing_states.key_seq().len() > 0 {
        missing_states_text(issues.missing_states.deep_values())
    } else {
        Seq::empty()
    })
}

/// Appends to `md` the head of the report, made at `timestamp`.
pub fn write_header(md: &mut String, repos: &Vec<String>, issues: &TaskIssues, timestamp: &str)
    requires
        issues.wf(),
    ensures
        final(md)@ == old(md)@ + header_text(
            repos.deep_view(),
            issues.repos_skipped.item_seq(),
            timestamp@,
        ),
{
    let ghost all = repos.deep_view();
    let skipped = &issues.repos_skipped;
    let ghost skipped_seq = skipped.item_seq();
    let mut analyzed = String::new();
    let mut i: usize = 0;
    proof {
        assert(all.take(0) =~= Seq::<Seq<char>>::empty());
    }
    while i < repos.len()
        invariant
            all == repos.deep_view(),
            skipped == &issues.repos_skipped,
            i <= repos.len(),
            analyzed@ == analyzed_list_text(all.take(i as int), skipped@),
        decreases repos.len() - i,
    {
        let repo = repos[i].as_str();
        proof {
            assert(all.take(i + 1).drop_last() =~= all.take(i as int));
            assert(all.take(i + 1).last() == repo@);
        }
        if !skipped.contains(repo) {
            let ghost before = analyzed@;
            analyzed.append("- [");
            analyzed.append(short_repo_name(repo).as_str());
            analyzed.append("](");
            analyzed.append(repo);
            analyzed.append(")");
            analyzed.append("\n");
            proof {
                assert(analyzed@ =~= before + repo_link(repo@) + "\n"@);
            }
        }
        i += 1;
    }
    proof {
        assert(all.take(repos.len() as int) =~= all);
    }
    let mut left_out = String::new();
    let count = skipped.len();
    let mut k: usize = 0;
    proof {
        assert(skipped_seq.take(0) =~= Seq::<Seq<char>>::empty());
    }
    while k < count
        invariant
            skipped == &issues.repos_skipped,
            skipped_seq == skipped.item_seq(),
            count == skipped_seq.len(),
            k <= count,
            left_out@ == skipped_list_text(skipped_seq.take(k as int)),
        decreases count - k,
    {
        let repo = skipped.item_at(k).as_str();
        let ghost before = left_out@;
        proof {
            assert(skipped_seq.take(k + 1).drop_last() =~= skipped_seq.take(k as int));
            assert(skipped_seq.take(k + 1).last() == repo@);
        }
        left_out.append("- [");
        left_out.append(short_repo_name(repo).as_str());
        left_out.append("](");
        left_out.append(repo);
        left_out.append(")");
        left_out.append(" (no pipeline files found)\n");
        proof {
            assert(left_out@ =~= before + repo_link(repo@) + " (no pipeline files found)\n"@);
        }
        k += 1;
    }
    proof {
        assert(skipped_seq.take(count as int) =~= skipped_seq);
    }
    let mut text = String::from_str("# 📊 Pipeline Task Analysis Report\n\n");
    text.append("🕒 Generated on: ");
    text.append(timestamp);
    text.append("\n\n");
    text.append("## 📚 Analyzed Repositories\n\n");
    text.append(analyzed.as_str());
    text.append("\n");
    if count > 0 {
        text.append("## ⏭️ Skipped Repositories\n\n");
        text.append(left_out.as_str());
        text.append("\n");
    }
    proof {
        assert(text@ =~= header_text(all, skipped_seq, timestamp@));
    }
    md.append(text.as_str());
}

/// Appends to `md` the head of the report, made now.
pub fn generate_header(md: &mut String, repos: &Vec<String>, issues: &TaskIssues)
    requires
        issues.wf(),
    ensures
        exists|timestamp: Seq<char>|
            final(md)@ == old(md)@ + #[trigger] header_text(
                repos.deep_view(),
                issues.repos_skipped.item_seq(),
                timestamp,
            ),
{
    let timestamp = local_time("%Y-%m-%d %H:%M:%S");
    write_header(md, repos, issues, timestamp.as_str());
    proof {
        assert(final(md)@ == old(md)@ + header_text(
            repos.deep_view(),
            issues.repos_skipped.item_seq(),
            timestamp@,
        ));
    }
}

/// Appends to `md` the summary of the report.
pub fn generate_summary_section(md: &mut String, issues: &TaskIssues)
    requires
        issues.wf(),
    ensures
        final(md)@ == old(md)@ + summary_text(summary_of(issues)),
{
    let summary = summarize(issues);
    let mut text = String::from_str("## 📈 Summary\n\n");
    text.append("- 🏢 Total repositories analyzed: ");
    text.append(decimal_text(summary.repos_analyzed).as_str());
    text.append("\n");
    if summary.repos_skipped > 0 {
        text.append("- ⏭️ Skipped repositories: ");
        text.append(decimal_text(summary.repos_skipped).as_str());
        text.append("\n");
    }
    text.append("- ⚠️ Repositories with issues: ");
    text.append(decimal_text(summary.repos_with_issues).as_str());
    text.append("\n");
    text.append("- ❌ Total missing task implementations: ");
    text.append(decimal_text(summary.missing_task_implementations).as_str());
    text.append("\n");
    text.append("- ⚡ Total invalid state implementations: ");
    text.append(decimal_text(summary.invalid_state_implementations).as_str());
    text.append("\n");
    text.append("\n");
    proof {
        assert(text@ =~= summary_text(summary));
    }
    md.append(text.as_str());
}

/// Appends to `out` every line of `lines`, each with its line feed.
fn append_lines(out: &mut String, lines: &Vec<String>)
    ensures
        final(out)@ == old(out)@ + lines_text(lines.deep_view()),
{
    let ghost all = lines.deep_view();
    let mut i: usize = 0;
    proof {
        assert(all.take(0) =~= Seq::<Seq<char>>::empty());
        assert(out@ =~= old(out)@ + lines_text(all.take(0)));
    }
    while i < lines.len()
        invariant
            all == lines.deep_view(),
            i <= lines.len(),
            out@ == old(out)@ + lines_text(all.take(i as int)),
        decreases lines.len() - i,
    {
        proof {
            assert(all.take(i + 1).drop_last() =~= all.take(i as int));
            assert(all.take(i + 1).last() == lines[i as int]@);
        }
        out.append(lines[i].as_str());
        out.append("\n");
        proof {
            assert(out@ =~= old(out)@ + (lines_text(all.take(i as int)) + lines[i as int]@
                + "\n"@));
        }
        i += 1;
    }
    proof {
        assert(all.take(lines.len() as int) =~= all);
    }
}

/// Appends to `md` the section of the tasks in a valid state.
pub fn generate_valid_states_section(md: &mut String, issues: &TaskIssues, config: &Config)
    requires
        issues.wf(),
        config.wf(),
    ensures
        final(md)@ == old(md)@ + valid_states_text(
            valid_tasks_among(issues@, config.task_names()),
        ),
{
    let tasks = valid_tasks(issues, config);
    let ghost models = tasks.deep_view();
    let mut lines: Vec<String> = Vec::new();
    let mut i: usize = 0;
    while i < tasks.len()
        invariant
            models == tasks.deep_view(),
            i <= tasks.len(),
            lines.len() == i,
            forall|k: int| 0 <= k < i ==> (#[trigger] lines[k])@ == valid_task_line(models[k]),
        decreases tasks.len() - i,
    {
        let task = &tasks[i];
        let mut line = String::from_str("- ");
        line.append(task.task_name.as_str());
        line.append(" v");
        line.append(task.version.as_str());
        line.append(" (");
        append_joined(&mut line, &task.repos, ", ");
        line.append(")");
        proof {
            assert(models[i as int] == task.deep_view());
            assert(line@ =~= valid_task_line(models[i as int]));
        }
        lines.push(line);
        i += 1;
    }
    proof {
        assert(lines.deep_view() =~= valid_task_lines(models));
    }
    let mut text = String::from_str("## ✅ Valid Task States\n\n");
    if lines.len() == 0 {
        text.append("No tasks are currently in a valid state.\n\n");
    } else {
        let in_order = sorted_texts(&lines);
        append_lines(&mut text, &in_order);
        text.append("\n");
    }
    proof {
        assert(text@ =~= valid_states_text(models));
    }
    md.append(text.as_str());
}

/// Appends to `md` the section of the tasks that are not configured.
pub fn generate_missing_states_section(md: &mut String, issues: &TaskIssues)
    requires
        issues.wf(),
    ensures
        final(md)@ == old(md)@ + missing_states_text(issues.missing_states.deep_values()),
{
    let names_map = &issues.missing_states;
    let ghost written = names_map.deep_values();
    let n = names_map.len();
    let mut names: Vec<String> = Vec::new();
    let mut i: usize = 0;
    while i < n
        invariant
            issues.wf(),
            names_map == &issues.missing_states,
            written == names_map.deep_values(),
            n == written.len(),
            i <= n,
            names.len() == i,
            forall|k: int| 0 <= k < i ==> (#[trigger] names[k])@ == written[k],
        decreases n - i,
    {
        names.push(names_map.value_at(i).clone());
        i += 1;
    }
    proof {
        assert(names.deep_view() =~= written);
    }
    let in_order = sorted_texts(&names);
    let ghost ordered = in_order.deep_view();
    let mut list = String::new();
    let mut k: usize = 0;
    proof {
        assert(ordered.take(0) =~= Seq::<Seq<char>>::empty());
    }
    while k < in_order.len()
        invariant
            ordered == in_order.deep_view(),
            k <= in_order.len(),
            list@ == bullet_lines_text(ordered.take(k as int)),
        decreases in_order.len() - k,
    {
        let ghost before = list@;
        proof {
            assert(ordered.take(k + 1).drop_last() =~= ordered.take(k as int));
            assert(ordered.take(k + 1).last() == in_order[k as int]@);
        }
        list.append("- ");
        list.append(in_order[k].as_str());
        list.append("\n");
        proof {
            assert(list@ =~= before + "- "@ + in_order[k as int]@ + "\n"@);
        }
        k += 1;
    }
    proof {
        assert(ordered.take(in_order.len() as int) =~= ordered);
    }
    let mut text = String::from_str("## ❌ Tasks with Missing Valid States\n\n");
    text.append(list.as_str());
    text.append(
        "\nConsider adding these tasks to your `ciprobeconfig.yml` with the appropriate valid versions.\n\n",
    );
    proof {
        assert(text@ =~= missing_states_text(written));
    }
    md.append(text.as_str());
}

/// What is shown of a path after an attempt to strip a directory from its
/// start: what was left of it, where the directory was stripped, and else the
/// path as it is.
pub open spec fn stripped_or_whole(rest: Option<Seq<char>>, whole: Seq<char>) -> Seq<char> {
    match rest {
        Some(left) => left,
        None => whole,
    }
}

/// What is shown of the path `whole` after an attempt to strip a directory
/// from its start, which left `rest`.
pub fn rest_or_whole(rest: Option<String>, whole: String) -> (shown: String)
    ensures
        shown@ == stripped_or_whole(rest.deep_view(), whole@),
{
    match rest {
        Some(left) => left,
        None => whole,
    }
}

/// The path of a file as the report shows it: below the directory of the
/// working copies and below the directory of its repository, where it lies
/// there. Whether it lies there, and what is left of it then, is decided by
/// the platform, so nothing is stated of the result.
fn shown_path(file_path: &str, repo_name: &str) -> String {
    let below_working_copies = strip_path_prefix(file_path, "C:\\repos\\ciprobe\\temp_repos");
    let below = rest_or_whole(below_working_copies, file_path.to_owned());
    let below_repository = strip_path_prefix(below.as_str(), repo_name);
    rest_or_whole(below_repository, below)
}

/// The invalid sightings of one task in one repository, as they are shown.
fn invalid_entries(list: &Vec<TaskImplementation>, repo_name: &str) -> (entries: Vec<InvalidEntry>)
    ensures
        shows_sightings(entries.deep_view(), list.deep_view()),
{
    let mut entries: Vec<InvalidEntry> = Vec::new();
    let mut i: usize = 0;
    while i < list.len()
        invariant
            i <= list.len(),
            entries.len() == i,
            forall|e: int| 0 <= e < i ==> (#[trigger] entries[e]).version@ == list[e].version@,
        decreases list.len() - i,
    {
        entries.push(
            InvalidEntry {
                version: list[i].version.clone(),
                shown_path: shown_path(list[i].file_path.as_str(), repo_name),
            },
        );
        i += 1;
    }
    proof {
        assert forall|e: int| 0 <= e < entries.len() implies (
        #[trigger] entries.deep_view()[e]).version == list.deep_view()[e].version by {
            assert(entries.deep_view()[e] == entries[e].deep_view());
            assert(list.deep_view()[e] == list[e]@);
        }
    }
    entries
}

/// The invalid sightings of one task, repository by repository, as they are
/// shown.
fn invalid_repos(by_repo: &StringMap<Vec<TaskImplementation>>) -> (repos: Vec<InvalidRepo>)
    requires
        by_repo.wf(),
    ensures
        shows_repos(repos.deep_view(), *by_repo),
{
    let n = by_repo.len();
    let mut repos: Vec<InvalidRepo> = Vec::new();
    let mut r: usize = 0;
    while r < n
        invariant
            by_repo.wf(),
            n == by_repo.key_seq().len(),
            r <= n,
            repos.len() == r,
            forall|k: int|
                0 <= k < r ==> {
                    &&& (#[trigger] repos[k]).repo_url@ == by_repo.key_seq()[k]
                    &&& shows_sightings(
                        repos[k].entries.deep_view(),
                        by_repo.value_seq()[k].deep_view(),
                    )
                },
        decreases n - r,
    {
        let repo_url = by_repo.key_at(r);
        let repo_name = short_repo_name(repo_url.as_str());
        repos.push(
            InvalidRepo {
                repo_url: repo_url.clone(),
                entries: invalid_entries(by_repo.value_at(r), repo_name.as_str()),
            },
        );
        r += 1;
    }
    proof {
        assert forall|k: int| 0 <= k < repos.len() implies {
            &&& (#[trigger] repos.deep_view()[k]).repo_url == by_repo.key_seq()[k]
            &&& shows_sightings(repos.deep_view()[k].entries, by_repo.value_seq()[k].deep_view())
        } by {
            assert(repos.deep_view()[k] == repos[k].deep_view());
        }
    }
    repos
}

/// The invalid sightings of a run, task by task, as the report shows them.
/// How the paths of the files are shown is decided by the platform.
pub fn invalid_tasks(issues: &TaskIssues, config: &Config) -> (tasks: Vec<InvalidTask>)
    requires
        issues.wf(),
        config.wf(),
    ensures
        shows_invalid_states(tasks.deep_view(), issues, config@),
{
    let map = &issues.invalid_states;
    let n = map.len();
    let mut tasks: Vec<InvalidTask> = Vec::new();
    let mut t: usize = 0;
    while t < n
        invariant
            issues.wf(),
            config.wf(),
            map == &issues.invalid_states,
            n == map.key_seq().len(),
            t <= n,
            tasks.len() == t,
            forall|k: int|
                0 <= k < t ==> {
                    &&& (#[trigger] tasks[k]).shown_name@ == shown_name(issues@, map.key_seq()[k])
                    &&& tasks[k].expected.deep_view() == valid_versions_for(
                        config@,
                        map.key_seq()[k],
                    )
                    &&& shows_repos(tasks[k].repos.deep_view(), map.value_seq()[k])
                },
        decreases n - t,
    {
        let task = map.key_at(t);
        let versions = config.get_valid_versions(task.as_str());
        let mut expected: Vec<String> = Vec::new();
        let mut v: usize = 0;
        while v < versions.len()
            invariant
                v <= versions.len(),
                expected.len() == v,
                forall|j: int| 0 <= j < v ==> (#[trigger] expected[j])@ == versions[j]@,
            decreases versions.len() - v,
        {
            expected.push(versions[v].to_owned());
            v += 1;
        }
        proof {
            assert(expected.deep_view() =~= versions.deep_view());
        }
        tasks.push(
            InvalidTask {
                shown_name: shown_task_name(issues, task.as_str()),
                expected,
                repos: invalid_repos(map.value_at(t)),
            },
        );
        t += 1;
    }
    proof {
        assert forall|k: int| 0 <= k < tasks.len() implies {
            &&& (#[trigger] tasks.deep_view()[k]).shown_name == shown_name(
                issues@,
                map.key_seq()[k],
            )
            &&& tasks.deep_view()[k].expected == valid_versions_for(config@, map.key_seq()[k])
            &&& shows_repos(tasks.deep_view()[k].repos, map.value_seq()[k])
        } by {
            assert(tasks.deep_view()[k] == tasks[k].deep_view());
        }
    }
    tasks
}

/// Appends to `md` the section of the invalid sightings `tasks`.
pub fn write_invalid_states_section(md: &mut String, tasks: &Vec<InvalidTask>)
    ensures
        final(md)@ == old(md)@ + invalid_states_text(tasks.deep_view()),
{
    let ghost all = tasks.deep_view();
    let mut body = String::new();
    let mut t: usize = 0;
    proof {
        assert(all.take(0) =~= Seq::<InvalidTaskModel>::empty());
    }
    while t < tasks.len()
        invariant
            all == tasks.deep_view(),
            t <= tasks.len(),
            body@ == invalid_tasks_text(all.take(t as int)),
        decreases tasks.len() - t,
    {
        let task = &tasks[t];
        let ghost task_model = task.deep_view();
        let ghost repo_models = task.repos.deep_view();
        proof {
            assert(all.take(t + 1).drop_last() =~= all.take(t as int));
            assert(all.take(t + 1).last() == task_model);
            assert(repo_models.take(0) =~= Seq::<InvalidRepoModel>::empty());
        }
        let mut by_repo = String::new();
        let mut r: usize = 0;
        while r < task.repos.len()
            invariant
                repo_models == task.repos.deep_view(),
                r <= task.repos.len(),
                by_repo@ == invalid_repos_text(repo_models.take(r as int)),
            decreases task.repos.len() - r,
        {
            let repo = &task.repos[r];
            let ghost repo_model = repo.deep_view();
            let ghost entry_models = repo.entries.deep_view();
            proof {
                assert(repo_models.take(r + 1).drop_last() =~= repo_models.take(r as int));
                assert(repo_models.take(r + 1).last() == repo_model);
                assert(entry_models.take(0) =~= Seq::<InvalidEntryModel>::empty());
            }
            let mut lines = String::new();
            let mut e: usize = 0;
            while e < repo.entries.len()
                invariant
                    entry_models == repo.entries.deep_view(),
                    e <= repo.entries.len(),
                    lines@ == invalid_entries_text(entry_models.take(e as int)),
                decreases repo.entries.len() - e,
            {
                let entry = &repo.entries[e];
                let ghost before = lines@;
                proof {
                    assert(entry_models.take(e + 1).drop_last() =~= entry_models.take(e as int));
                    assert(entry_models.take(e + 1).last() == entry.deep_view());
                }
                lines.append("- Version ");
                lines.append(entry.version.as_str());
                lines.append(" in `");
                lines.append(entry.shown_path.as_str());
                lines.append("`\n");
                proof {
                    assert(lines@ =~= before + "- Version "@ + entry.version@ + " in `"@
                        + entry.shown_path@ + "`\n"@);
                }
                e += 1;
            }
            proof {
                assert(entry_models.take(repo.entries.len() as int) =~= entry_models);
            }
            let ghost before = by_repo@;
            by_repo.append("#### 📁 [");
            by_repo.append(short_repo_name(repo.repo_url.as_str()).as_str());
            by_repo.append("](");
            by_repo.append(repo.repo_url.as_str());
            by_repo.append(")\n\n");
            by_repo.append(lines.as_str());
            by_repo.append("\n");
            proof {
                assert(by_repo@ =~= before + "#### 📁 ["@ + short_name(repo_model.repo_url)
                    + "]("@ + repo_model.repo_url + ")\n\n"@ + invalid_entries_text(
                    repo_model.entries,
                ) + "\n"@);
            }
            r += 1;
        }
        proof {
            assert(repo_models.take(task.repos.len() as int) =~= repo_models);
        }
        let ghost before = body@;
        body.append("### 🔧 ");
        body.append(task.shown_name.as_str());
        body.append(" (expected: ");
        append_joined(&mut body, &task.expected, " or ");
        body.append(")\n\n");
        body.append(by_repo.as_str());
        proof {
            assert(body@ =~= before + "### 🔧 "@ + task_model.shown_name + " (expected: "@
                + joined_with(task_model.expected, " or "@) + ")\n\n"@ + invalid_repos_text(
                task_model.repos,
            ));
        }
        t += 1;
    }
    proof {
        assert(all.take(tasks.len() as int) =~= all);
    }
    let mut text = String::from_str("## ⚠️ Invalid Task States\n\n");
    if tasks.len() == 0 {
        text.append("No invalid task states found.\n\n");
    } else {
        text.append(body.as_str());
    }
    proof {
        assert(text@ =~= invalid_states_text(all));
    }
    md.append(text.as_str());
}

/// Appends to `md` the section of the invalid sightings of a run.
pub fn generate_invalid_states_section(md: &mut String, issues: &TaskIssues, config: &Config)
    requires
        issues.wf(),
        config.wf(),
    ensures
        exists|invalid: Seq<InvalidTaskModel>|
            shows_invalid_states(invalid, issues, config@) && final(md)@ == old(md)@
                + #[trigger] invalid_states_text(invalid),
{
    let tasks = invalid_tasks(issues, config);
    write_invalid_states_section(md, &tasks);
    proof {
        let invalid = tasks.deep_view();
        assert(shows_invalid_states(invalid, issues, config@) && final(md)@ == old(md)@
            + invalid_states_text(invalid));
    }
}

/// The report of a run over `repos`, made now.
pub fn generate_markdown_report(repos: &Vec<String>, config: &Config, issues: &TaskIssues) -> (md:
    String)
    requires
        issues.wf(),
        config.wf(),
    ensures
        exists|timestamp: Seq<char>, invalid: Seq<InvalidTaskModel>|
            shows_invalid_states(invalid, issues, config@) && md@ == #[trigger] report_text(
                repos.deep_view(),
                issues,
                config,
                timestamp,
                invalid,
            ),
{
    let timestamp = local_time("%Y-%m-%d %H:%M:%S");
    let invalid = invalid_tasks(issues, config);
    let mut md = String::new();
    write_header(&mut md, repos, issues, timestamp.as_str());
    generate_summary_section(&mut md, issues);
    if !issues.all_implementations.is_empty() {
        generate_valid_states_section(&mut md, issues, config);
    }
    if !issues.invalid_states.is_empty() {
        write_invalid_states_section(&mut md, &invalid);
    }
    if !issues.missing_states.is_empty() {
        generate_missing_states_section(&mut md, issues);
    }
    proof {
        assert(md@ =~= report_text(
            repos.deep_view(),
            issues,
            config,
            timestamp@,
            invalid.deep_view(),
        ));
    }
    md
}

} // verus!
