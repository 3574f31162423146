//! Runs worked through from the text of a pipeline file to what is found.

use crate::analyzer::{
    lemma_reconcile_keeps_repositories, reconcile, record_keys, split_key, EventModel, RunModel,
};
use crate::line_parser::{
    is_ascii_name, is_comment, is_valid_version, lemma_parse_accepts_declaration, parse_task,
    task_marker, version_separator, TaskDeclaration,
};
use crate::scanner::{line_key, scan, scan_lines, task_key};
use crate::string_map::list_of;
use crate::task_issues::IssuesModel;
use crate::task_types::Sighting;
use crate::text::{
    ascii_lowercase, is_ascii_text, lemma_first_index_of_is, lemma_lowercase_of_small_ascii,
    lemma_trim_padded, lines, lowercase_of, strip_carriage_return, trim,
};
use vstd::prelude::*;

verus! {

/// A line that declares a task in the plainest way: `task: <name>@<version>`.
#[verifier::opaque]
pub open spec fn declaration_line(name: Seq<char>, version: Seq<char>) -> Seq<char> {
    task_marker() + seq![' '] + name + version_separator() + version
}

/// A name in small letters: an ASCII name without capital letters.
pub open spec fn is_small_name(name: Seq<char>) -> bool {
    &&& is_ascii_name(name)
    &&& forall|i: int| 0 <= i < name.len() ==> !(0x41 <= (#[trigger] name[i] as u32) <= 0x5A)
}

/// A plain declaration is trimmed, is no comment, and declares its task.
pub proof fn lemma_declaration_line_parses(name: Seq<char>, version: Seq<char>)
    requires
        is_ascii_name(name),
        is_valid_version(version),
    ensures
        trim(declaration_line(name, version)) == declaration_line(name, version),
        !is_comment(declaration_line(name, version)),
        parse_task(declaration_line(name, version)) == Some(TaskDeclaration { name, version }),
{
    let line = task_marker() + seq![' '] + name + version_separator() + version;
    assert(declaration_line(name, version) == line) by {
        reveal(declaration_line);
    }
    let none = Seq::<char>::empty();
    assert(trim(line) == line) by {
        assert(line.first() == 't');
        assert(line.last() == version.last());
        assert(version[version.len() - 1] == version.last());
        assert(none + line + none =~= line);
        lemma_trim_padded(none, line, none);
    }
    assert(!is_comment(line)) by {
        assert(line[0] == 't');
    }
    assert(parse_task(line) == Some(TaskDeclaration { name, version })) by {
        lemma_parse_accepts_declaration(none, seq![' '], name, none, none, version, none);
        assert(none + task_marker() + seq![' '] + name + none + version_separator() + none
            + version + none =~= line);
    }
}

/// A plain declaration contributes the key of its task.
pub proof fn lemma_key_of_declaration_line(name: Seq<char>, version: Seq<char>)
    requires
        is_ascii_name(name),
        is_valid_version(version),
    ensures
        line_key(declaration_line(name, version)) == Some(
            task_key(TaskDeclaration { name, version }),
        ),
{
    lemma_declaration_line_parses(name, version);
}

/// The key of a task with an ASCII name splits into that name and its
/// version.
pub proof fn lemma_split_key_of_task_key(name: Seq<char>, version: Seq<char>)
    requires
        is_ascii_name(name),
    ensures
        split_key(task_key(TaskDeclaration { name, version })) == Some((name, version)),
{
    let key = task_key(TaskDeclaration { name, version });
    let at = name.len() as int;
    assert forall|i: int| 0 <= i < at implies #[trigger] key[i] != '@' by {
        assert(key[i] == name[i]);
    }
    assert(key[at] == '@');
    lemma_first_index_of_is(key, '@', at);
    assert(key.take(at) =~= name);
    assert(key.skip(at + 1) =~= version);
}

/// A text of two lines, the first ended by a line feed, has these two lines.
pub proof fn lemma_lines_of_two(a: Seq<char>, b: Seq<char>)
    requires
        forall|i: int| 0 <= i < a.len() ==> #[trigger] a[i] != '\n',
        forall|i: int| 0 <= i < b.len() ==> #[trigger] b[i] != '\n',
        b.len() > 0,
        a.len() == 0 || a.last() != '\r',
    ensures
        lines(a + seq!['\n'] + b) == seq![a, b],
{
    let content = a + seq!['\n'] + b;
    let n = a.len() as int;
    assert forall|i: int| 0 <= i < n implies #[trigger] content[i] != '\n' by {
        assert(content[i] == a[i]);
    }
    assert(content[n] == '\n');
    lemma_first_index_of_is(content, '\n', n);
    assert(content.take(n) =~= a);
    assert(strip_carriage_return(a) == a);
    assert(content.skip(n + 1) =~= b);
    lemma_first_index_of_is(b, '\n', b.len() as int);
    assert(lines(b) =~= seq![b]);
    assert(lines(content) =~= seq![a] + lines(content.skip(n + 1)));
    assert(seq![a] + seq![b] =~= seq![a, b]);
}

/// Two lines that contribute two keys contribute them in their order.
pub proof fn lemma_scan_of_two_lines(
    a: Seq<char>,
    b: Seq<char>,
    key_a: Seq<char>,
    key_b: Seq<char>,
)
    requires
        line_key(a) == Some(key_a),
        line_key(b) == Some(key_b),
        key_a != key_b,
    ensures
        scan_lines(seq![a, b]) == seq![key_a, key_b],
{
    let ls = seq![a, b];
    let one = seq![a];
    assert(ls.drop_last() =~= one);
    assert(ls.last() == b);
    assert(one.drop_last() =~= Seq::<Seq<char>>::empty());
    assert(one.last() == a);
    assert(scan_lines(one.drop_last()) =~= Seq::<Seq<char>>::empty());
    assert(scan_lines(one) =~= seq![key_a]);
    assert(!seq![key_a].contains(key_b));
    assert(scan_lines(ls) =~= seq![key_a].push(key_b));
    assert(seq![key_a].push(key_b) =~= seq![key_a, key_b]);
}

/// The keys of one task at two versions differ.
pub proof fn lemma_keys_differ(name: Seq<char>, first: Seq<char>, second: Seq<char>)
    requires
        first != second,
    ensures
        task_key(TaskDeclaration { name, version: first }) != task_key(
            TaskDeclaration { name, version: second },
        ),
{
    let key_a = task_key(TaskDeclaration { name, version: first });
    let key_b = task_key(TaskDeclaration { name, version: second });
    assert(key_a.skip(name.len() as int + 1) =~= first);
    assert(key_b.skip(name.len() as int + 1) =~= second);
}

/// A pipeline file with two plain declarations of one task, at two
/// versions, holds two keys.
pub proof fn lemma_scan_of_two_declarations(name: Seq<char>, first: Seq<char>, second: Seq<char>)
    requires
        is_ascii_name(name),
        is_valid_version(first),
        is_valid_version(second),
        first != second,
    ensures
        scan(declaration_line(name, first) + seq!['\n'] + declaration_line(name, second)) == seq![
            task_key(TaskDeclaration { name, version: first }),
            task_key(TaskDeclaration { name, version: second }),
        ],
{
    let a = declaration_line(name, first);
    let b = declaration_line(name, second);
    lemma_no_line_feed(name, first);
    lemma_no_line_feed(name, second);
    lemma_lines_of_two(a, b);
    lemma_key_of_declaration_line(name, first);
    lemma_key_of_declaration_line(name, second);
    lemma_keys_differ(name, first, second);
    lemma_scan_of_two_lines(
        a,
        b,
        task_key(TaskDeclaration { name, version: first }),
        task_key(TaskDeclaration { name, version: second }),
    );
}

/// A plain declaration holds no line feed and ends with a digit.
pub proof fn lemma_no_line_feed(name: Seq<char>, version: Seq<char>)
    requires
        is_ascii_name(name),
        is_valid_version(version),
    ensures
        forall|i: int|
            0 <= i < declaration_line(name, version).len() ==> #[trigger] declaration_line(
                name,
                version,
            )[i] != '\n',
        declaration_line(name, version).len() > 0,
        declaration_line(name, version).last() != '\r',
{
    reveal(declaration_line);
    let line = declaration_line(name, version);
    assert(line.last() == version.last());
    assert(version[version.len() - 1] == version.last());
    assert forall|i: int| 0 <= i < line.len() implies #[trigger] line[i] != '\n' by {
        if i < 5 {
            assert(line[i] == task_marker()[i]);
        } else if i == 5 {
        } else if i < 6 + name.len() {
            assert(line[i] == name[i - 6]);
        } else if i == 6 + name.len() {
        } else {
            assert(line[i] == version[i - 7 - name.len()]);
        }
    }
}

/// What a run of one repository finds in one pipeline file that declares
/// one task at two versions, of which the registry accepts the second.
pub struct TwoVersions {
    pub repo: Seq<char>,
    pub file: Seq<char>,
    pub task: Seq<char>,
    pub refused: Seq<char>,
    pub accepted: Seq<char>,
}

impl TwoVersions {
    /// The text of the pipeline file.
    pub open spec fn content(self) -> Seq<char> {
        declaration_line(self.task, self.refused) + seq!['\n'] + declaration_line(
            self.task,
            self.accepted,
        )
    }

    /// The sighting of the version that the registry does not list.
    pub open spec fn refused_sighting(self) -> Sighting {
        Sighting { repo_name: self.repo, version: self.refused, file_path: self.file }
    }

    /// The sighting of the version that the registry lists.
    pub open spec fn accepted_sighting(self) -> Sighting {
        Sighting { repo_name: self.repo, version: self.accepted, file_path: self.file }
    }

    /// The run: the repository is acquired, its one file is discovered and
    /// read.
    pub open spec fn run(
        self,
        registry: Map<Seq<char>, Seq<Seq<char>>>,
        task_names: Seq<Seq<char>>,
    ) -> RunModel {
        RunModel::start(seq![self.repo]).step(EventModel::Acquired, registry, task_names).step(
            EventModel::Discovered(seq![self.file]),
            registry,
            task_names,
        ).step(EventModel::FileRead(self.content()), registry, task_names)
    }
}

/// Two keys of one task are recorded as two sightings of it, and its
/// lowercase name is found.
pub proof fn lemma_record_two_keys(
    issues: IssuesModel,
    key_a: Seq<char>,
    key_b: Seq<char>,
    name: Seq<char>,
    first: Sighting,
    second: Sighting,
    registry: Map<Seq<char>, Seq<Seq<char>>>,
)
    requires
        first.repo_name == second.repo_name,
        first.file_path == second.file_path,
        split_key(key_a) == Some((name, first.version)),
        split_key(key_b) == Some((name, second.version)),
    ensures
        record_keys(
            issues,
            Set::empty(),
            seq![key_a, key_b],
            first.repo_name,
            first.file_path,
            registry,
        ) == (
            issues.with_sighting(name, first, registry).with_sighting(name, second, registry),
            Set::<Seq<char>>::empty().insert(lowercase_of(name)),
        ),
{
    let repo = first.repo_name;
    let file = first.file_path;
    let none = Set::<Seq<char>>::empty();
    let keys = seq![key_a, key_b];
    let one = seq![key_a];
    assert(keys.drop_last() =~= one);
    assert(keys.last() == key_b);
    assert(one.drop_last() =~= Seq::<Seq<char>>::empty());
    assert(one.last() == key_a);
    assert(record_keys(issues, none, one.drop_last(), repo, file, registry) == (issues, none));
    let after_a = record_keys(issues, none, one, repo, file, registry);
    assert(after_a == (
        issues.with_sighting(name, first, registry),
        none.insert(lowercase_of(name)),
    ));
    assert(none.insert(lowercase_of(name)).insert(lowercase_of(name)) =~= none.insert(
        lowercase_of(name),
    ));
}

/// Two sightings of one task in a fresh accumulator, of which the registry
/// lists only the version of the second: both are recorded, the first is
/// noted as invalid, and nothing is noted as unconfigured.
pub proof fn lemma_two_sightings(
    issues: IssuesModel,
    name: Seq<char>,
    first: Sighting,
    second: Sighting,
    registry: Map<Seq<char>, Seq<Seq<char>>>,
)
    requires
        issues.all_implementations == Map::<Seq<char>, Seq<Sighting>>::empty(),
        issues.invalid_states == Map::<Seq<char>, Map<Seq<char>, Seq<Sighting>>>::empty(),
        lowercase_of(name) == name,
        first.version != second.version,
        list_of(registry, name) == seq![second.version],
    ensures
        ({
            let after = issues.with_sighting(name, first, registry).with_sighting(
                name,
                second,
                registry,
            );
            &&& after.all_implementations == Map::<Seq<char>, Seq<Sighting>>::empty().insert(
                name,
                seq![first, second],
            )
            &&& after.invalid_states == Map::<
                Seq<char>,
                Map<Seq<char>, Seq<Sighting>>,
            >::empty().insert(
                name,
                Map::<Seq<char>, Seq<Sighting>>::empty().insert(first.repo_name, seq![first]),
            )
            &&& after.missing_states == issues.missing_states
            &&& after.missing_required_tasks == issues.missing_required_tasks
            &&& after.repos_analyzed == issues.repos_analyzed
            &&& after.repos_skipped == issues.repos_skipped
        }),
{
    let listed = seq![second.version];
    assert(listed[0] == second.version);
    assert(listed.contains(second.version));
    assert(!listed.contains(first.version));
    let one = issues.with_sighting(name, first, registry);
    assert(one.all_implementations =~= Map::<Seq<char>, Seq<Sighting>>::empty().insert(
        name,
        seq![first],
    )) by {
        assert(Seq::<Sighting>::empty().push(first) =~= seq![first]);
    }
    assert(one.invalid_states =~= Map::<Seq<char>, Map<Seq<char>, Seq<Sighting>>>::empty().insert(
        name,
        Map::<Seq<char>, Seq<Sighting>>::empty().insert(first.repo_name, seq![first]),
    )) by {
        assert(Seq::<Sighting>::empty().push(first) =~= seq![first]);
    }
    let two = one.with_sighting(name, second, registry);
    assert(two.all_implementations =~= Map::<Seq<char>, Seq<Sighting>>::empty().insert(
        name,
        seq![first, second],
    )) by {
        assert(seq![first].push(second) =~= seq![first, second]);
    }
    assert(two.invalid_states == one.invalid_states);
}

/// A repository with one pipeline file that declares one task at two
/// versions, of which the registry accepts only the second: both sightings
/// are recorded for the task, in the order of the file; the first is noted
/// as invalid for the repository, and nothing else is; no task is noted as
/// unconfigured; the repository counts as analyzed and not as skipped; and
/// the run has ended.
pub proof fn lemma_one_file_with_two_versions(
    case: TwoVersions,
    registry: Map<Seq<char>, Seq<Seq<char>>>,
    task_names: Seq<Seq<char>>,
)
    requires
        is_small_name(case.task),
        is_valid_version(case.refused),
        is_valid_version(case.accepted),
        case.refused != case.accepted,
        list_of(registry, case.task) == seq![case.accepted],
    ensures
        ({
            let found = case.run(registry, task_names).issues;
            &&& found.all_implementations == Map::<Seq<char>, Seq<Sighting>>::empty().insert(
                case.task,
                seq![case.refused_sighting(), case.accepted_sighting()],
            )
            &&& found.invalid_states == Map::<
                Seq<char>,
                Map<Seq<char>, Seq<Sighting>>,
            >::empty().insert(
                case.task,
                Map::<Seq<char>, Seq<Sighting>>::empty().insert(
                    case.repo,
                    seq![case.refused_sighting()],
                ),
            )
            &&& found.missing_states == Map::<Seq<char>, Seq<char>>::empty()
            &&& found.repos_analyzed.contains(case.repo)
            &&& !found.repos_skipped.contains(case.repo)
            &&& task_names == seq![case.task] ==> found.missing_required_tasks == Map::<
                Seq<char>,
                Seq<Seq<char>>,
            >::empty()
            &&& case.run(registry, task_names).current is None
        }),
{
    let name = case.task;
    let key_a = task_key(TaskDeclaration { name, version: case.refused });
    let key_b = task_key(TaskDeclaration { name, version: case.accepted });
    lemma_scan_of_two_declarations(name, case.refused, case.accepted);
    lemma_split_key_of_task_key(name, case.refused);
    lemma_split_key_of_task_key(name, case.accepted);
    assert(is_ascii_text(name)) by {
        assert forall|i: int| 0 <= i < name.len() implies (#[trigger] name[i] as u32) < 0x80 by {}
    }
    lemma_lowercase_of_small_ascii(name);

    let acquired = IssuesModel::empty().with_analyzed(case.repo);
    lemma_record_two_keys(
        acquired,
        key_a,
        key_b,
        name,
        case.refused_sighting(),
        case.accepted_sighting(),
        registry,
    );
    lemma_two_sightings(
        acquired,
        name,
        case.refused_sighting(),
        case.accepted_sighting(),
        registry,
    );
    let recorded = record_keys(
        acquired,
        Set::empty(),
        seq![key_a, key_b],
        case.repo,
        case.file,
        registry,
    );
    lemma_reconcile_keeps_repositories(recorded.0, case.repo, task_names, recorded.1);
    if task_names == seq![name] {
        assert(task_names.drop_last() =~= Seq::<Seq<char>>::empty());
        assert(task_names.last() == name);
        assert(reconcile(recorded.0, case.repo, task_names.drop_last(), recorded.1) == recorded.0);
        assert(reconcile(recorded.0, case.repo, task_names, recorded.1) == recorded.0);
    }
    lemma_run_of_one_file(case.repo, case.file, case.content(), registry, task_names);
}

/// The run of one repository with one pipeline file: after the repository
/// was acquired and its file discovered and read, the keys of the file are
/// recorded, the missing tasks are reported, and the run has ended.
pub proof fn lemma_run_of_one_file(
    repo: Seq<char>,
    file: Seq<char>,
    content: Seq<char>,
    registry: Map<Seq<char>, Seq<Seq<char>>>,
    task_names: Seq<Seq<char>>,
)
    ensures
        ({
            let run = RunModel::start(seq![repo]).step(
                EventModel::Acquired,
                registry,
                task_names,
            ).step(EventModel::Discovered(seq![file]), registry, task_names).step(
                EventModel::FileRead(content),
                registry,
                task_names,
            );
            let recorded = record_keys(
                IssuesModel::empty().with_analyzed(repo),
                Set::empty(),
                scan(content),
                repo,
                file,
                registry,
            );
            &&& run.issues == reconcile(recorded.0, repo, task_names, recorded.1)
            &&& run.current is None
        }),
{
    let repos = seq![repo];
    assert(repos[0] == repo);
    let files = seq![file];
    assert(files[0] == file);
    let first = RunModel::start(repos).step(EventModel::Acquired, registry, task_names);
    assert(first.current is Some);
    let second = first.step(EventModel::Discovered(files), registry, task_names);
    assert(second.current is Some);
}

/// `build/compile` is a name in small letters, and `3` and `2` are two
/// versions.
pub proof fn lemma_build_compile_is_small()
    ensures
        is_small_name("build/compile"@),
        is_valid_version("3"@),
        is_valid_version("2"@),
        "3"@ != "2"@,
{
    reveal_strlit("build/compile");
    reveal_strlit("3");
    reveal_strlit("2");
    assert("3"@[0] == '3');
    assert("2"@[0] == '2');
}

/// The two lines `task: build/compile@3` and `task: build/compile@2` are the
/// plain declarations of `build/compile` at `3` and at `2`.
pub proof fn lemma_build_compile_lines()
    ensures
        "task: build/compile@3"@ == declaration_line("build/compile"@, "3"@),
        "task: build/compile@2"@ == declaration_line("build/compile"@, "2"@),
        "task: build/compile@3\ntask: build/compile@2"@ == declaration_line(
            "build/compile"@,
            "3"@,
        ) + seq!['\n'] + declaration_line("build/compile"@, "2"@),
{
    reveal(declaration_line);
    reveal_strlit("build/compile");
    reveal_strlit("3");
    reveal_strlit("2");
    reveal_strlit("task: build/compile@3");
    reveal_strlit("task: build/compile@2");
    reveal_strlit("task: build/compile@3\ntask: build/compile@2");
    let first = task_marker() + seq![' '] + "build/compile"@ + version_separator() + "3"@;
    let second = task_marker() + seq![' '] + "build/compile"@ + version_separator() + "2"@;
    assert("task: build/compile@3"@ =~= first);
    assert("task: build/compile@2"@ =~= second);
    assert("task: build/compile@3\ntask: build/compile@2"@ =~= first + seq!['\n'] + second);
}

/// A repository whose one pipeline file reads
///
/// ```text
/// task: build/compile@3
/// task: build/compile@2
/// ```
///
/// with a registry that lists version `2` for `build/compile` and knows no
/// other task: two sightings are recorded under `build/compile`, versions
/// `3` and `2`; the sighting of version `3` is the one invalid sighting, for
/// this repository; no task is unconfigured, none is missing; the repository
/// counts as analyzed and not as skipped.
pub proof fn lemma_build_compile_at_two_versions(repo: Seq<char>, file: Seq<char>)
    ensures
        ({
            let task = "build/compile"@;
            let registry = Map::<Seq<char>, Seq<Seq<char>>>::empty().insert(task, seq!["2"@]);
            let found = RunModel::start(seq![repo]).step(
                EventModel::Acquired,
                registry,
                seq![task],
            ).step(EventModel::Discovered(seq![file]), registry, seq![task]).step(
                EventModel::FileRead("task: build/compile@3\ntask: build/compile@2"@),
                registry,
                seq![task],
            ).issues;
            let at_3 = Sighting { repo_name: repo, version: "3"@, file_path: file };
            let at_2 = Sighting { repo_name: repo, version: "2"@, file_path: file };
            &&& found.all_implementations == Map::<Seq<char>, Seq<Sighting>>::empty().insert(
                task,
                seq![at_3, at_2],
            )
            &&& found.invalid_states == Map::<
                Seq<char>,
                Map<Seq<char>, Seq<Sighting>>,
            >::empty().insert(task, Map::<Seq<char>, Seq<Sighting>>::empty().insert(repo, seq![at_3]))
            &&& found.missing_states == Map::<Seq<char>, Seq<char>>::empty()
            &&& found.missing_required_tasks == Map::<Seq<char>, Seq<Seq<char>>>::empty()
            &&& found.repos_analyzed.contains(repo)
            &&& !found.repos_skipped.contains(repo)
        }),
{
    let task = "build/compile"@;
    let registry = Map::<Seq<char>, Seq<Seq<char>>>::empty().insert(task, seq!["2"@]);
    let case = TwoVersions { repo, file, task, refused: "3"@, accepted: "2"@ };
    lemma_build_compile_is_small();
    lemma_build_compile_lines();
    assert(list_of(registry, task) == seq!["2"@]);
    assert(case.content() == "task: build/compile@3\ntask: build/compile@2"@);
    lemma_one_file_with_two_versions(case, registry, seq![task]);
}

/// `Deploy/Setup` is found in the registry under `deploy/setup`.
pub proof fn lemma_lowercase_of_deploy_setup()
    ensures
        lowercase_of("Deploy/Setup"@) == "deploy/setup"@,
{
    reveal_strlit("Deploy/Setup");
    reveal_strlit("deploy/setup");
    let written = "Deploy/Setup"@;
    assert(is_ascii_text(written));
    assert(ascii_lowercase(written) =~= "deploy/setup"@);
}

/// A sighting of `Deploy/Setup`, held against a registry that lists
/// versions for `deploy/setup`: it is recorded under `deploy/setup`, and the
/// task is not noted as unconfigured. Held against a registry that does not
/// know `deploy/setup`, the task is noted as unconfigured under
/// `deploy/setup`, with its name as it was written.
pub proof fn lemma_deploy_setup_is_joined_by_lowercase(
    before: IssuesModel,
    sighting: Sighting,
    registry: Map<Seq<char>, Seq<Seq<char>>>,
)
    ensures
        ({
            let after = before.with_sighting("Deploy/Setup"@, sighting, registry);
            let key = "deploy/setup"@;
            &&& list_of(after.all_implementations, key) == list_of(
                before.all_implementations,
                key,
            ).push(sighting)
            &&& list_of(registry, key).len() > 0 ==> after.missing_states == before.missing_states
            &&& list_of(registry, key).len() == 0 ==> after.missing_states
                == before.missing_states.insert(key, "Deploy/Setup"@)
        }),
{
    lemma_lowercase_of_deploy_setup();
}

} // verus!
