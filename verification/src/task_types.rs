//! The values that the analysis records.

use crate::text::{lowercase, lowercase_of};
use crate::version::{versions_equal, versions_match};
use vstd::prelude::*;
use vstd::std_specs::cmp::PartialEqSpecImpl;
use vstd::string::StringExecFns;

verus! {

/// A version that is accepted for a task.
#[derive(Debug, Clone)]
pub enum TaskValidState {
    Default(String),
}

/// A task that the registry knows, by its normalized name.
#[derive(Debug, Clone, PartialEq, Eq, Hash)]
pub enum SupportedTask {
    Default(String),
}

/// One sighting of a task: the repository, the version that was pinned there
/// and the file that pins it.
#[derive(Debug, Clone, Ord, PartialOrd, Eq, PartialEq)]
pub struct TaskImplementation {
    pub repo_name: String,
    pub version: String,
    pub file_path: String,
}

/// The mathematical value of a [`TaskImplementation`].
pub struct Sighting {
    pub repo_name: Seq<char>,
    pub version: Seq<char>,
    pub file_path: Seq<char>,
}

impl View for TaskImplementation {
    type V = Sighting;

    open spec fn view(&self) -> Sighting {
        Sighting { repo_name: self.repo_name@, version: self.version@, file_path: self.file_path@ }
    }
}

impl DeepView for TaskImplementation {
    type V = Sighting;

    open spec fn deep_view(&self) -> Sighting {
        self@
    }
}

impl TaskImplementation {
    /// A sighting of `version` in `file_path` of `repo_name`.
    pub fn new(repo_name: &str, version: &str, file_path: &str) -> (r: Self)
        ensures
            r@ == (Sighting { repo_name: repo_name@, version: version@, file_path: file_path@ }),
    {
        TaskImplementation {
            repo_name: String::from_str(repo_name),
            version: String::from_str(version),
            file_path: String::from_str(file_path),
        }
    }
}

impl SupportedTask {
    /// The name of the task.
    pub open spec fn name(&self) -> Seq<char> {
        match self {
            SupportedTask::Default(name) => name@,
        }
    }

    /// The task of that name, in lowercase.
    pub fn from_name(s: &str) -> (r: Self)
        ensures
            r.name() == lowercase_of(s@),
    {
        SupportedTask::Default(lowercase(s))
    }

    /// The name of the task, as text.
    pub fn to_string(&self) -> (r: String)
        ensures
            r@ == self.name(),
    {
        match self {
            SupportedTask::Default(name) => name.clone(),
        }
    }
}

impl std::str::FromStr for SupportedTask {
    type Err = String;

    fn from_str(s: &str) -> (r: Result<Self, Self::Err>)
        ensures
            r matches Ok(task) && task.name() == lowercase_of(s@),
    {
        Ok(SupportedTask::from_name(s))
    }
}

impl TaskValidState {
    /// The accepted version.
    pub open spec fn version(&self) -> Seq<char> {
        match self {
            TaskValidState::Default(version) => version@,
        }
    }

    /// The state as text: `@` and the version.
    pub fn to_string(&self) -> (r: String)
        ensures
            r@ == seq!['@'] + self.version(),
    {
        let mut out = String::from_str("@");
        proof {
            reveal_strlit("@");
            assert("@"@ =~= seq!['@']);
        }
        match self {
            TaskValidState::Default(version) => {
                out.append(version.as_str());
            },
        }
        out
    }
}

impl PartialEq for TaskValidState {
    fn eq(&self, other: &Self) -> (r: bool) {
        match (self, other) {
            (TaskValidState::Default(a), TaskValidState::Default(b)) => versions_match(
                a.as_str(),
                b.as_str(),
            ),
        }
    }
}

impl PartialEqSpecImpl for TaskValidState {
    open spec fn obeys_eq_spec() -> bool {
        true
    }

    open spec fn eq_spec(&self, other: &Self) -> bool {
        versions_equal(self.version(), other.version())
    }
}

} // verus!
