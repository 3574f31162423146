//! Collecting task declarations with a regular expression.
//!
//! Every line of a pipeline file is trimmed; comment lines are skipped; the
//! pattern `task:\s*([\w/]+)@(\d+)` is sought in each remaining line. Where
//! it is found, its two groups are the name and the version of a task.

use crate::error::Error;
use crate::line_parser::{check_comment, is_comment};
use crate::text::{chars_of, line_spans, lines, spans_of, string_from, trim, trim_bounds, Span};
use vstd::prelude::*;
use vstd::string::StringExecFns;

verus! {

/// A task that was collected from a pipeline file.
#[derive(Debug)]
pub enum CollectedTask {
    Regular { task_name: String, version: String, file_path: String },
}

/// The mathematical value of a [`CollectedTask`].
pub struct Collected {
    pub task_name: Seq<char>,
    pub version: Seq<char>,
    pub file_path: Seq<char>,
}

impl DeepView for CollectedTask {
    type V = Collected;

    open spec fn deep_view(&self) -> Collected {
        match self {
            CollectedTask::Regular { task_name, version, file_path } => Collected {
                task_name: task_name@,
                version: version@,
                file_path: file_path@,
            },
        }
    }
}

/// A pipeline file: its path and its text.
#[derive(Debug, Clone)]
pub struct PipelineFile {
    pub path: String,
    pub content: String,
}

/// Collects the tasks of the pipeline files of one repository.
pub struct TaskImplementationCollector {
    pub repo_path: String,
    pub repo_name: String,
}

/// The groups of the leftmost match of `pattern` in `haystack`, the whole
/// match first and a group that took no part as `None`; `None` where there is
/// no match. Defined by the regular expression library, for patterns that it
/// compiles.
pub uninterp spec fn regex_groups(pattern: Seq<char>, haystack: Seq<char>) -> Option<
    Seq<Option<Seq<char>>>,
>;

/// Whether the regular expression library compiles `pattern`, with the
/// limits that it sets where none are asked for.
pub uninterp spec fn regex_compiles(pattern: Seq<char>) -> bool;

/// `Regex::new` and `Regex::captures` of the crate `regex`: compiles
/// `pattern` and seeks it in `haystack`. Whether the pattern compiles
/// depends on the pattern alone. Where it compiles, what is found depends on
/// the pattern and the haystack alone. Where it does not, the words of the
/// library's error are returned.
#[verifier::external_body]
fn regex_captures(pattern: &str, haystack: &str) -> (r: Result<Option<Vec<Option<String>>>, String>)
    ensures
        r is Ok <==> regex_compiles(pattern@),
        r matches Ok(groups) ==> groups.deep_view() == regex_groups(pattern@, haystack@),
{
    let regex = match regex::Regex::new(pattern) {
        Ok(regex) => regex,
        Err(e) => return Err(e.to_string()),
    };
    Ok(
        regex.captures(haystack).map(
            |found| found.iter().map(|group| group.map(|m| m.as_str().to_owned())).collect(),
        ),
    )
}

/// The pattern of a task declaration.
pub open spec fn task_pattern() -> Seq<char> {
    "task:\\s*([\\w/]+)@(\\d+)"@
}

/// The task that the groups of a match stand for: the first group is its
/// name, the second its version.
pub open spec fn collected_from(groups: Option<Seq<Option<Seq<char>>>>, file_path: Seq<char>) -> Option<
    Collected,
> {
    match groups {
        Some(g) => if g.len() >= 3 && g[1] is Some && g[2] is Some {
            Some(Collected { task_name: g[1]->0, version: g[2]->0, file_path })
        } else {
            None
        },
        None => None,
    }
}

/// Whether the pattern is sought in a line: it is, trimmed, no comment.
pub open spec fn is_candidate(line: Seq<char>) -> bool {
    !is_comment(trim(line))
}

/// Whether the pattern is sought in some line of a text.
pub open spec fn has_candidate(content: Seq<char>) -> bool {
    exists|i: int| 0 <= i < lines(content).len() && is_candidate(#[trigger] lines(content)[i])
}

/// The tasks that are collected from lines, in their order: from every
/// candidate line, trimmed, in which the pattern is found.
pub open spec fn collect_lines(ls: Seq<Seq<char>>, file_path: Seq<char>) -> Seq<Collected>
    decreases ls.len(),
{
    if ls.len() == 0 {
        Seq::empty()
    } else {
        let before = collect_lines(ls.drop_last(), file_path);
        if is_candidate(ls.last()) {
            match collected_from(regex_groups(task_pattern(), trim(ls.last())), file_path) {
                Some(task) => before.push(task),
                None => before,
            }
        } else {
            before
        }
    }
}

/// The tasks that are collected from the text of one pipeline file.
pub open spec fn collect_text(content: Seq<char>, file_path: Seq<char>) -> Seq<Collected> {
    collect_lines(lines(content), file_path)
}

/// The tasks that are collected from pipeline files, file after file.
pub open spec fn collect_files(files: Seq<(Seq<char>, Seq<char>)>) -> Seq<Collected>
    decreases files.len(),
{
    if files.len() == 0 {
        Seq::empty()
    } else {
        collect_files(files.drop_last()) + collect_text(files.last().1, files.last().0)
    }
}

/// Whether the pattern is sought in some line of some file.
pub open spec fn any_candidate(files: Seq<(Seq<char>, Seq<char>)>) -> bool {
    exists|i: int| 0 <= i < files.len() && has_candidate(#[trigger] files[i].1)
}

impl DeepView for PipelineFile {
    type V = (Seq<char>, Seq<char>);

    open spec fn deep_view(&self) -> (Seq<char>, Seq<char>) {
        (self.path@, self.content@)
    }
}

/// The task that the groups of a match stand for, seen in `file_path`.
pub fn collected_task(groups: &Option<Vec<Option<String>>>, file_path: &str) -> (r: Option<
    CollectedTask,
>)
    ensures
        r.deep_view() == collected_from(groups.deep_view(), file_path@),
{
    match groups {
        None => None,
        Some(g) => {
            if g.len() < 3 {
                return None;
            }
            assert(g.deep_view()[1] == g[1].deep_view());
            assert(g.deep_view()[2] == g[2].deep_view());
            match (&g[1], &g[2]) {
                (Some(name), Some(version)) => Some(
                    CollectedTask::Regular {
                        task_name: name.clone(),
                        version: version.clone(),
                        file_path: String::from_str(file_path),
                    },
                ),
                _ => None,
            }
        },
    }
}

/// Collects the tasks that the text of one pipeline file declares.
///
/// Fails exactly where the pattern is sought in some line and does not
/// compile, with the words of the regular expression library.
pub fn collect_from_content(content: &str, file_path: &str) -> (r: Result<
    Vec<CollectedTask>,
    Error,
>)
    ensures
        r is Err <==> has_candidate(content@) && !regex_compiles(task_pattern()),
        match r {
            Ok(tasks) => tasks.deep_view() == collect_text(content@, file_path@),
            Err(e) => e is Config,
        },
{
    let v = chars_of(content);
    let spans = line_spans(&v);
    let ghost ls = lines(content@);
    let mut collected: Vec<CollectedTask> = Vec::new();
    let mut i: usize = 0;
    proof {
        assert(ls.take(0) =~= Seq::<Seq<char>>::empty());
        assert(collected.deep_view() =~= Seq::<Collected>::empty());
    }
    while i < spans.len()
        invariant
            v@ == content@,
            ls == lines(content@),
            spans_of(spans@, v@) == ls,
            forall|k: int| 0 <= k < spans.len() ==> (#[trigger] spans[k]).within(0, v.len() as int),
            i <= spans.len(),
            collected.deep_view() == collect_lines(ls.take(i as int), file_path@),
            forall|k: int| 0 <= k < i && is_candidate(#[trigger] ls[k]) ==> regex_compiles(
                task_pattern(),
            ),
        decreases spans.len() - i,
    {
        let span: Span = spans[i];
        proof {
            assert(span.within(0, v.len() as int));
            assert(ls[i as int] == span.of(v@));
            assert(ls.take(i + 1).drop_last() =~= ls.take(i as int));
            assert(ls.take(i + 1).last() == ls[i as int]);
        }
        let (a, b) = trim_bounds(&v, span.start, span.end);
        if !check_comment(&v, a, b) {
            assert(is_candidate(lines(content@)[i as int]));
            let line = string_from(&v, a, b);
            let groups = match regex_captures("task:\\s*([\\w/]+)@(\\d+)", line.as_str()) {
                Err(msg) => {
                    return Err(Error::Config(msg));
                },
                Ok(groups) => groups,
            };
            let ghost so_far = collected.deep_view();
            match collected_task(&groups, file_path) {
                Some(task) => {
                    let ghost added = task.deep_view();
                    collected.push(task);
                    proof {
                        assert(collected.deep_view() =~= so_far.push(added));
                    }
                },
                None => {},
            }
        }
        i += 1;
    }
    proof {
        assert(ls.take(spans.len() as int) =~= ls);
    }
    Ok(collected)
}

impl TaskImplementationCollector {
    /// A collector for the repository `repo_name`, checked out at `repo_path`.
    pub fn new(repo_path: String, repo_name: String) -> (r: Self)
        ensures
            r.repo_path == repo_path,
            r.repo_name == repo_name,
    {
        TaskImplementationCollector { repo_path, repo_name }
    }

    /// Collects the tasks that the pipeline files of the repository declare,
    /// file after file.
    ///
    /// Fails exactly where the pattern is sought in some line of some file
    /// and does not compile.
    pub fn collect(&self, files: &Vec<PipelineFile>) -> (r: Result<Vec<CollectedTask>, Error>)
        ensures
            r is Err <==> any_candidate(files.deep_view()) && !regex_compiles(task_pattern()),
            match r {
                Ok(tasks) => tasks.deep_view() == collect_files(files.deep_view()),
                Err(e) => e is Config,
            },
    {
        let ghost all = files.deep_view();
        let mut collected: Vec<CollectedTask> = Vec::new();
        let mut i: usize = 0;
        proof {
            assert(all.take(0) =~= Seq::<(Seq<char>, Seq<char>)>::empty());
            assert(collected.deep_view() =~= Seq::<Collected>::empty());
        }
        while i < files.len()
            invariant
                all == files.deep_view(),
                i <= files.len(),
                collected.deep_view() == collect_files(all.take(i as int)),
                forall|k: int| 0 <= k < i && has_candidate((#[trigger] all[k]).1) ==> regex_compiles(
                    task_pattern(),
                ),
            decreases files.len() - i,
        {
            let file = &files[i];
            proof {
                assert(all[i as int] == file.deep_view());
                assert(all.take(i + 1).drop_last() =~= all.take(i as int));
                assert(all.take(i + 1).last() == all[i as int]);
            }
            let mut tasks = match collect_from_content(file.content.as_str(), file.path.as_str()) {
                Err(e) => {
                    proof {
                        assert(has_candidate(all[i as int].1));
                    }
                    return Err(e);
                },
                Ok(tasks) => tasks,
            };
            let ghost so_far = collected.deep_view();
            let ghost more = tasks.deep_view();
            collected.append(&mut tasks);
            proof {
                assert(collected.deep_view() =~= so_far + more);
            }
            i += 1;
        }
        proof {
            assert(all.take(files.len() as int) =~= all);
        }
        Ok(collected)
    }
}

} // verus!
