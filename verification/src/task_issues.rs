//! The accumulator of a run: every sighting of a task, and what is wrong
//! with it.
//!
//! A sighting is valid where the registry lists its version for the task,
//! letter for letter; the relaxed comparison of `version` is not applied
//! here, so `2.0` is reported where only `2` is listed.

use crate::config::Config;
use crate::string_map::{list_of, map_of, StringMap, StringSet};
use crate::task_types::{Sighting, TaskImplementation};
use crate::text::{lowercase, lowercase_of};
use vstd::prelude::*;

verus! {

/// What a run has found so far.
pub struct TaskIssues {
    /// For a repository, the registered tasks that it does not use.
    pub missing_required_tasks: StringMap<Vec<String>>,
    /// For a task and a repository, the sightings with a version that the
    /// registry does not list.
    pub invalid_states: StringMap<StringMap<Vec<TaskImplementation>>>,
    /// For a task that the registry does not know, the name as it was
    /// written.
    pub missing_states: StringMap<String>,
    /// For a task, every sighting.
    pub all_implementations: StringMap<Vec<TaskImplementation>>,
    /// The repositories that were reached.
    pub repos_analyzed: StringSet,
    /// The repositories that were reached and hold no pipeline file.
    pub repos_skipped: StringSet,
}

/// The mathematical value of a [`TaskIssues`]. Tasks are keyed by their
/// normalized name.
pub struct IssuesModel {
    pub missing_required_tasks: Map<Seq<char>, Seq<Seq<char>>>,
    pub invalid_states: Map<Seq<char>, Map<Seq<char>, Seq<Sighting>>>,
    pub missing_states: Map<Seq<char>, Seq<char>>,
    pub all_implementations: Map<Seq<char>, Seq<Sighting>>,
    pub repos_analyzed: Set<Seq<char>>,
    pub repos_skipped: Set<Seq<char>>,
}

impl IssuesModel {
    /// Nothing found yet.
    pub open spec fn empty() -> IssuesModel {
        IssuesModel {
            missing_required_tasks: Map::empty(),
            invalid_states: Map::empty(),
            missing_states: Map::empty(),
            all_implementations: Map::empty(),
            repos_analyzed: Set::empty(),
            repos_skipped: Set::empty(),
        }
    }

    /// `task` is noted as missing from `repo`.
    pub open spec fn with_missing_task(self, repo: Seq<char>, task: Seq<char>) -> IssuesModel {
        IssuesModel {
            missing_required_tasks: self.missing_required_tasks.insert(
                repo,
                list_of(self.missing_required_tasks, repo).push(task),
            ),
            ..self
        }
    }

    /// A sighting is noted as invalid for `task` in its repository.
    pub open spec fn with_invalid_state(self, task: Seq<char>, sighting: Sighting) -> IssuesModel {
        let by_repo = map_of(self.invalid_states, task);
        IssuesModel {
            invalid_states: self.invalid_states.insert(
                task,
                by_repo.insert(
                    sighting.repo_name,
                    list_of(by_repo, sighting.repo_name).push(sighting),
                ),
            ),
            ..self
        }
    }

    /// A sighting of `task_name` is recorded and classified against
    /// `registry`.
    pub open spec fn with_sighting(
        self,
        task_name: Seq<char>,
        sighting: Sighting,
        registry: Map<Seq<char>, Seq<Seq<char>>>,
    ) -> IssuesModel {
        let name = lowercase_of(task_name);
        let recorded = IssuesModel {
            all_implementations: self.all_implementations.insert(
                name,
                list_of(self.all_implementations, name).push(sighting),
            ),
            ..self
        };
        let valid_versions = list_of(registry, name);
        if valid_versions.len() == 0 {
            IssuesModel { missing_states: recorded.missing_states.insert(name, task_name), ..recorded }
        } else if !valid_versions.contains(sighting.version) {
            recorded.with_invalid_state(name, sighting)
        } else {
            recorded
        }
    }

    /// `repo` was reached.
    pub open spec fn with_analyzed(self, repo: Seq<char>) -> IssuesModel {
        IssuesModel { repos_analyzed: self.repos_analyzed.insert(repo), ..self }
    }

    /// `repo` was reached and holds no pipeline file.
    pub open spec fn with_skipped(self, repo: Seq<char>) -> IssuesModel {
        IssuesModel {
            repos_analyzed: self.repos_analyzed.insert(repo),
            repos_skipped: self.repos_skipped.insert(repo),
            ..self
        }
    }

    /// Every skipped repository counts as analyzed.
    pub open spec fn consistent(self) -> bool {
        self.repos_skipped.subset_of(self.repos_analyzed)
    }
}

impl View for TaskIssues {
    type V = IssuesModel;

    open spec fn view(&self) -> IssuesModel {
        IssuesModel {
            missing_required_tasks: self.missing_required_tasks.deep_view(),
            invalid_states: self.invalid_states.deep_view(),
            missing_states: self.missing_states.deep_view(),
            all_implementations: self.all_implementations.deep_view(),
            repos_analyzed: self.repos_analyzed@,
            repos_skipped: self.repos_skipped@,
        }
    }
}

impl Default for TaskIssues {
    fn default() -> (r: Self)
        ensures
            r.wf(),
            r@ == IssuesModel::empty(),
    {
        let r = TaskIssues {
            missing_required_tasks: StringMap::new(),
            invalid_states: StringMap::new(),
            missing_states: StringMap::new(),
            all_implementations: StringMap::new(),
            repos_analyzed: StringSet::new(),
            repos_skipped: StringSet::new(),
        };
        proof {
            assert(r.missing_required_tasks.deep_view() =~= Map::<
                Seq<char>,
                Seq<Seq<char>>,
            >::empty());
            assert(r.invalid_states.deep_view() =~= Map::<
                Seq<char>,
                Map<Seq<char>, Seq<Sighting>>,
            >::empty());
            assert(r.missing_states.deep_view() =~= Map::<Seq<char>, Seq<char>>::empty());
            assert(r.all_implementations.deep_view() =~= Map::<Seq<char>, Seq<Sighting>>::empty());
        }
        r
    }
}

impl TaskIssues {
    /// Every map holds each key once, and every skipped repository counts as
    /// analyzed.
    pub open spec fn wf(&self) -> bool {
        &&& self.missing_required_tasks.wf()
        &&& self.invalid_states.nested_wf()
        &&& self.missing_states.wf()
        &&& self.all_implementations.wf()
        &&& self.repos_analyzed.wf()
        &&& self.repos_skipped.wf()
        &&& self@.consistent()
    }

    /// Notes that `repo_name` does not use the registered task `task_name`.
    pub fn add_missing_task(&mut self, repo_name: &str, task_name: &str)
        requires
            old(self).wf(),
        ensures
            final(self).wf(),
            final(self)@ == old(self)@.with_missing_task(repo_name@, task_name@),
    {
        self.missing_required_tasks.append(repo_name, task_name.to_owned());
    }

    /// Notes a sighting of `task_name` in `repo_name` whose version the
    /// registry does not list.
    pub fn add_invalid_state(
        &mut self,
        task_name: &str,
        repo_name: &str,
        version: String,
        file_path: String,
    )
        requires
            old(self).wf(),
        ensures
            final(self).wf(),
            final(self)@ == old(self)@.with_invalid_state(
                task_name@,
                Sighting { repo_name: repo_name@, version: version@, file_path: file_path@ },
            ),
    {
        let sighting = TaskImplementation { repo_name: repo_name.to_owned(), version, file_path };
        self.invalid_states.append_nested(task_name, repo_name, sighting);
    }

    /// Records a sighting of `task_name` and classifies it: the task is
    /// looked up in the registry by its lowercase name; a task without
    /// accepted versions is noted as unconfigured, under the name as it was
    /// written; a version that the registry does not list is noted as
    /// invalid. Whatever its class, the sighting is recorded: the sightings
    /// grow by exactly one.
    pub fn add_implementation(
        &mut self,
        task_name: &str,
        repo_name: &str,
        version: String,
        file_path: String,
        config: &Config,
    )
        requires
            old(self).wf(),
            config.wf(),
        ensures
            final(self).wf(),
            final(self)@ == old(self)@.with_sighting(
                task_name@,
                Sighting { repo_name: repo_name@, version: version@, file_path: file_path@ },
                config@,
            ),
            total_len(final(self).all_implementations.value_seq()) == total_len(
                old(self).all_implementations.value_seq(),
            ) + 1,
    {
        proof {
            lemma_entry_count(old(self).all_implementations);
            lemma_sighting_adds_one(
                old(self)@,
                task_name@,
                Sighting { repo_name: repo_name@, version: version@, file_path: file_path@ },
                config@,
            );
        }
        let normalized_task_name = lowercase(task_name);
        self.all_implementations.append(
            normalized_task_name.as_str(),
            TaskImplementation::new(repo_name, version.as_str(), file_path.as_str()),
        );
        let known = match config.task_versions.get(normalized_task_name.as_str()) {
            None => {
                proof {
                    assert(list_of(config@, normalized_task_name@).len() == 0);
                }
                None
            },
            Some(valid_versions) => {
                proof {
                    assert(list_of(config@, normalized_task_name@) == valid_versions.deep_view());
                }
                if valid_versions.len() == 0 {
                    None
                } else {
                    Some(list_contains(valid_versions, version.as_str()))
                }
            },
        };
        match known {
            None => {
                self.missing_states.insert(normalized_task_name, task_name.to_owned());
                proof {
                    crate::string_map::lemma_deep_map_insert(
                        old(self).missing_states.as_map(),
                        lowercase_of(task_name@),
                        final(self).missing_states.value_of(lowercase_of(task_name@)),
                    );
                }
            },
            Some(listed) => {
                if !listed {
                    self.add_invalid_state(
                        normalized_task_name.as_str(),
                        repo_name,
                        version,
                        file_path,
                    );
                }
            },
        }
        proof {
            lemma_entry_count(final(self).all_implementations);
        }
    }

    /// Notes that `repo_name` was reached.
    pub fn mark_analyzed(&mut self, repo_name: &str)
        requires
            old(self).wf(),
        ensures
            final(self).wf(),
            final(self)@ == old(self)@.with_analyzed(repo_name@),
    {
        self.repos_analyzed.insert(repo_name.to_owned());
    }

    /// Notes that `repo_name` was reached and holds no pipeline file.
    pub fn mark_skipped(&mut self, repo_name: &str)
        requires
            old(self).wf(),
        ensures
            final(self).wf(),
            final(self)@ == old(self)@.with_skipped(repo_name@),
    {
        self.repos_analyzed.insert(repo_name.to_owned());
        self.repos_skipped.insert(repo_name.to_owned());
    }
}

/// Whether `item` is one of `list`, letter for letter.
pub fn list_contains(list: &Vec<String>, item: &str) -> (r: bool)
    ensures
        r == list.deep_view().contains(item@),
{
    let mut i: usize = 0;
    while i < list.len()
        invariant
            i <= list.len(),
            forall|k: int| 0 <= k < i ==> #[trigger] list.deep_view()[k] != item@,
        decreases list.len() - i,
    {
        if *list[i].as_str() == *item {
            assert(list.deep_view()[i as int] == item@);
            return true;
        }
        assert(list.deep_view()[i as int] == list[i as int]@);
        i += 1;
    }
    false
}

/// The places of a map of lists: a key and an index into its list.
pub open spec fn entries<T>(m: Map<Seq<char>, Seq<T>>) -> Set<(Seq<char>, int)> {
    Set::new(|e: (Seq<char>, int)| m.dom().contains(e.0) && 0 <= e.1 < m[e.0].len())
}

/// The number of items in all the lists of a map.
pub open spec fn entry_count<T>(m: Map<Seq<char>, Seq<T>>) -> nat {
    entries(m).len()
}

/// Appending to one list of a map adds one place.
pub proof fn lemma_append_adds_entry<T>(m: Map<Seq<char>, Seq<T>>, key: Seq<char>, item: T)
    requires
        entries(m).finite(),
    ensures
        entries(m.insert(key, list_of(m, key).push(item))).finite(),
        entry_count(m.insert(key, list_of(m, key).push(item))) == entry_count(m) + 1,
{
    let after = m.insert(key, list_of(m, key).push(item));
    let place = (key, list_of(m, key).len() as int);
    assert(entries(after) =~= entries(m).insert(place));
    assert(!entries(m).contains(place));
}

/// The places of one list: the key with every index below `len`.
pub open spec fn places_of(key: Seq<char>, len: int) -> Set<(Seq<char>, int)> {
    Set::new(|e: (Seq<char>, int)| e.0 == key && 0 <= e.1 < len)
}

/// A list of `len` items has `len` places.
pub proof fn lemma_places_of(key: Seq<char>, len: int)
    requires
        0 <= len,
    ensures
        places_of(key, len).finite(),
        places_of(key, len).len() == len,
    decreases len,
{
    if len == 0 {
        assert(places_of(key, 0) =~= Set::<(Seq<char>, int)>::empty());
    } else {
        lemma_places_of(key, len - 1);
        assert(places_of(key, len) =~= places_of(key, len - 1).insert((key, len - 1)));
    }
}

/// The places of the lists stored under the first `n` keys.
pub open spec fn places_below<T>(keys: Seq<Seq<char>>, lists: Seq<Vec<T>>, n: int) -> Set<
    (Seq<char>, int),
> {
    Set::new(
        |e: (Seq<char>, int)|
            exists|i: int|
                0 <= i < n && i < keys.len() && i < lists.len() && #[trigger] keys[i] == e.0 && 0
                    <= e.1 < lists[i].len(),
    )
}

/// The number of items in all of `lists`.
pub open spec fn total_len<T>(lists: Seq<Vec<T>>) -> nat
    decreases lists.len(),
{
    if lists.len() == 0 {
        0
    } else {
        total_len(lists.drop_last()) + lists.last()@.len()
    }
}

/// The lists stored under distinct keys have as many places as items.
pub proof fn lemma_places_below<T>(keys: Seq<Seq<char>>, lists: Seq<Vec<T>>, n: int)
    requires
        keys.len() == lists.len(),
        keys.no_duplicates(),
        0 <= n <= keys.len(),
    ensures
        places_below(keys, lists, n).finite(),
        places_below(keys, lists, n).len() == total_len(lists.take(n)),
    decreases n,
{
    if n == 0 {
        assert(places_below(keys, lists, 0) =~= Set::<(Seq<char>, int)>::empty());
    } else {
        lemma_places_below(keys, lists, n - 1);
        let before = places_below(keys, lists, n - 1);
        let last = places_of(keys[n - 1], lists[n - 1].len() as int);
        lemma_places_of(keys[n - 1], lists[n - 1].len() as int);
        assert(places_below(keys, lists, n) =~= before.union(last)) by {
            assert forall|e: (Seq<char>, int)| places_below(keys, lists, n).contains(e)
                <==> before.union(last).contains(e) by {
                if places_below(keys, lists, n).contains(e) {
                    let i = choose|i: int|
                        0 <= i < n && i < keys.len() && i < lists.len() && #[trigger] keys[i] == e.0
                            && 0 <= e.1 < lists[i].len();
                    if i < n - 1 {
                        assert(before.contains(e));
                    } else {
                        assert(last.contains(e));
                    }
                }
                if before.contains(e) {
                    let i = choose|i: int|
                        0 <= i < n - 1 && i < keys.len() && i < lists.len() && #[trigger] keys[i]
                            == e.0 && 0 <= e.1 < lists[i].len();
                    assert(0 <= i < n && keys[i] == e.0);
                }
                if last.contains(e) {
                    assert(keys[n - 1] == e.0);
                }
            }
        }
        assert(before.disjoint(last)) by {
            assert forall|e: (Seq<char>, int)| !(before.contains(e) && last.contains(e)) by {
                if before.contains(e) && last.contains(e) {
                    let i = choose|i: int|
                        0 <= i < n - 1 && i < keys.len() && i < lists.len() && #[trigger] keys[i]
                            == e.0 && 0 <= e.1 < lists[i].len();
                    assert(keys[i] == keys[n - 1]);
                }
            }
        }
        vstd::set_lib::lemma_set_disjoint_lens(before, last);
        assert(lists.take(n).drop_last() =~= lists.take(n - 1));
        assert(lists.take(n).last() == lists[n - 1]);
    }
}

/// The sightings that a well-formed map holds are counted by the items of
/// its lists.
pub proof fn lemma_entry_count<T: DeepView>(map: StringMap<Vec<T>>)
    requires
        map.wf(),
    ensures
        entries(map.deep_view()).finite(),
        entry_count(map.deep_view()) == total_len(map.value_seq()),
{
    let keys = map.key_seq();
    let lists = map.value_seq();
    let n = keys.len() as int;
    lemma_places_below(keys, lists, n);
    assert(lists.take(n) =~= lists);
    assert(entries(map.deep_view()) =~= places_below(keys, lists, n)) by {
        assert forall|e: (Seq<char>, int)| entries(map.deep_view()).contains(e)
            <==> places_below(keys, lists, n).contains(e) by {
            if entries(map.deep_view()).contains(e) {
                map.lemma_has(e.0);
                let i = map.slot(e.0);
                assert(map.deep_view()[e.0].len() == lists[i].len());
                assert(0 <= i < n && keys[i] == e.0 && 0 <= e.1 < lists[i].len());
            }
            if places_below(keys, lists, n).contains(e) {
                let i = choose|i: int|
                    0 <= i < n && i < keys.len() && i < lists.len() && #[trigger] keys[i] == e.0
                        && 0 <= e.1 < lists[i].len();
                map.lemma_slot(i);
                assert(map.deep_view()[e.0].len() == lists[i].len());
            }
        }
    }
}

/// A sighting as it is handed to the accumulator: the task name as written,
/// and where it was seen.
pub struct SightingRecord {
    pub task_name: Seq<char>,
    pub sighting: Sighting,
}

/// The value of the accumulator after `records` were recorded, one after the
/// other, starting from `start`.
pub open spec fn record_all(
    start: IssuesModel,
    records: Seq<SightingRecord>,
    registry: Map<Seq<char>, Seq<Seq<char>>>,
) -> IssuesModel
    decreases records.len(),
{
    if records.len() == 0 {
        start
    } else {
        record_all(start, records.drop_last(), registry).with_sighting(
            records.last().task_name,
            records.last().sighting,
            registry,
        )
    }
}

/// Recording a sighting adds exactly one entry to the sightings, valid or
/// not.
pub proof fn lemma_sighting_adds_one(
    before: IssuesModel,
    task_name: Seq<char>,
    sighting: Sighting,
    registry: Map<Seq<char>, Seq<Seq<char>>>,
)
    requires
        entries(before.all_implementations).finite(),
    ensures
        entries(before.with_sighting(task_name, sighting, registry).all_implementations).finite(),
        entry_count(before.with_sighting(task_name, sighting, registry).all_implementations)
            == entry_count(before.all_implementations) + 1,
{
    lemma_append_adds_entry(before.all_implementations, lowercase_of(task_name), sighting);
}

/// After any number of sightings were recorded in a fresh accumulator, in
/// whatever order, it holds as many entries as sightings were recorded.
pub proof fn lemma_every_sighting_is_counted(
    records: Seq<SightingRecord>,
    registry: Map<Seq<char>, Seq<Seq<char>>>,
)
    ensures
        entries(record_all(IssuesModel::empty(), records, registry).all_implementations).finite(),
        entry_count(record_all(IssuesModel::empty(), records, registry).all_implementations)
            == records.len(),
    decreases records.len(),
{
    if records.len() == 0 {
        assert(entries(IssuesModel::empty().all_implementations) =~= Set::<(Seq<char>, int)>::empty());
    } else {
        lemma_every_sighting_is_counted(records.drop_last(), registry);
        lemma_sighting_adds_one(
            record_all(IssuesModel::empty(), records.drop_last(), registry),
            records.last().task_name,
            records.last().sighting,
            registry,
        );
    }
}

/// A sighting of a task for which the registry lists versions is classified
/// in exactly one way. Either its version is listed: then nothing but the
/// sightings changes. Or it is not: then it is appended to the invalid
/// sightings of its task and repository. In neither case is the task noted as
/// unconfigured.
pub proof fn lemma_sighting_is_classified(
    before: IssuesModel,
    task_name: Seq<char>,
    sighting: Sighting,
    registry: Map<Seq<char>, Seq<Seq<char>>>,
)
    requires
        list_of(registry, lowercase_of(task_name)).len() > 0,
    ensures
        ({
            let name = lowercase_of(task_name);
            let after = before.with_sighting(task_name, sighting, registry);
            let listed = list_of(registry, name).contains(sighting.version);
            let invalid_before = list_of(map_of(before.invalid_states, name), sighting.repo_name);
            let invalid_after = list_of(map_of(after.invalid_states, name), sighting.repo_name);
            &&& after.missing_states == before.missing_states
            &&& list_of(after.all_implementations, name) == list_of(
                before.all_implementations,
                name,
            ).push(sighting)
            &&& listed ==> after.invalid_states == before.invalid_states
            &&& !listed ==> invalid_after == invalid_before.push(sighting)
        }),
{
}

/// A sighting of a task for which the registry lists no version is noted as
/// unconfigured under the name as it was written, and never as invalid.
pub proof fn lemma_unconfigured_task_is_noted(
    before: IssuesModel,
    task_name: Seq<char>,
    sighting: Sighting,
    registry: Map<Seq<char>, Seq<Seq<char>>>,
)
    requires
        list_of(registry, lowercase_of(task_name)).len() == 0,
    ensures
        ({
            let name = lowercase_of(task_name);
            let after = before.with_sighting(task_name, sighting, registry);
            &&& after.missing_states.dom().contains(name)
            &&& after.missing_states[name] == task_name
            &&& after.invalid_states == before.invalid_states
        }),
{
}

/// Recording a sighting removes nothing: every list of sightings, valid or
/// invalid, begins as it did before.
pub proof fn lemma_sighting_keeps_entries(
    before: IssuesModel,
    task_name: Seq<char>,
    sighting: Sighting,
    registry: Map<Seq<char>, Seq<Seq<char>>>,
    task: Seq<char>,
    repo: Seq<char>,
)
    ensures
        ({
            let after = before.with_sighting(task_name, sighting, registry);
            &&& list_of(before.all_implementations, task).is_prefix_of(
                list_of(after.all_implementations, task),
            )
            &&& list_of(map_of(before.invalid_states, task), repo).is_prefix_of(
                list_of(map_of(after.invalid_states, task), repo),
            )
            &&& after.missing_required_tasks == before.missing_required_tasks
            &&& after.repos_analyzed == before.repos_analyzed
            &&& after.repos_skipped == before.repos_skipped
        }),
{
}

} // verus!
