//! The registry of known tasks and the credentials of a run.

use crate::error::Error;
use crate::string_map::{list_of, StringMap};
use crate::task_types::SupportedTask;
use crate::text::{
    chars_of, contains_text, lowercase, lowercase_of, split, split_spans, string_from,
};
use crate::yaml_parser::{
    no_section_message, no_tasks_message, parse_table, section_marker, table_of, TaskTable,
    YamlConfig,
};
use vstd::prelude::*;
use vstd::string::StringExecFns;

verus! {

/// The credentials with which repositories are acquired.
#[derive(Debug, Clone)]
pub struct Credentials {
    pub username: String,
    pub token: String,
}

/// The message of the error for credentials that are not of the form
/// `username:token`.
pub open spec fn bad_credentials_message() -> Seq<char> {
    "Invalid credentials format. Expected 'username:token'"@
}

/// The message of the error for credentials that were given nowhere.
pub open spec fn no_credentials_message() -> Seq<char> {
    "Credentials not found. Please provide them via CLI or environment variables"@
}

/// The credentials that a text of the form `username:token` gives: the text
/// holds exactly one colon.
pub open spec fn parse_credentials(text: Seq<char>) -> Option<(Seq<char>, Seq<char>)> {
    let parts = split(text, ':');
    if parts.len() == 2 {
        Some((parts[0], parts[1]))
    } else {
        None
    }
}

impl Credentials {
    /// Reads credentials of the form `username:token`.
    pub fn from_string(credentials: &str) -> (r: Result<Credentials, Error>)
        ensures
            match r {
                Ok(c) => parse_credentials(credentials@) == Some((c.username@, c.token@)),
                Err(e) => {
                    &&& parse_credentials(credentials@) is None
                    &&& e matches Error::Config(msg)
                    &&& msg@ == bad_credentials_message()
                },
            },
    {
        let v = chars_of(credentials);
        proof {
            assert(v@.subrange(0, v.len() as int) =~= credentials@);
        }
        let parts = split_spans(&v, 0, v.len(), ':');
        if parts.len() != 2 {
            return Err(
                Error::Config(
                    String::from_str("Invalid credentials format. Expected 'username:token'"),
                ),
            );
        }
        let first = parts[0];
        let second = parts[1];
        assert(first.within(0, v.len() as int) && second.within(0, v.len() as int));
        assert(split(credentials@, ':')[0] == first.of(v@));
        assert(split(credentials@, ':')[1] == second.of(v@));
        Ok(
            Credentials {
                username: string_from(&v, first.start, first.end),
                token: string_from(&v, second.start, second.end),
            },
        )
    }

    /// Chooses the credentials of a run: those given on the command line, in
    /// the form `username:token`, or else those that the environment holds.
    pub fn load(
        cli_credentials: &Option<String>,
        env_username: Option<String>,
        env_token: Option<String>,
    ) -> (r: Result<Credentials, Error>)
        ensures
            match r {
                Ok(c) => match cli_credentials {
                    Some(text) => parse_credentials(text@) == Some((c.username@, c.token@)),
                    None => env_username == Some(c.username) && env_token == Some(c.token),
                },
                Err(e) => e matches Error::Config(msg) && match cli_credentials {
                    Some(text) => parse_credentials(text@) is None && msg@
                        == bad_credentials_message(),
                    None => (env_username is None || env_token is None) && msg@
                        == no_credentials_message(),
                },
            },
    {
        match cli_credentials {
            Some(text) => Credentials::from_string(text.as_str()),
            None => match (env_username, env_token) {
                (Some(username), Some(token)) => Ok(Credentials { username, token }),
                _ => Err(
                    Error::Config(
                        String::from_str(
                            "Credentials not found. Please provide them via CLI or environment variables",
                        ),
                    ),
                ),
            },
        }
    }
}

/// The first `n` tasks of a table under their lowercase names. Where two
/// names agree in lowercase, the versions of the later one are kept, at the
/// place of the earlier one.
pub open spec fn normalize_prefix(table: TaskTable, n: int) -> TaskTable
    decreases n,
{
    if n <= 0 {
        TaskTable::empty()
    } else {
        normalize_prefix(table, n - 1).with_task(
            lowercase_of(table.names[n - 1]),
            table.versions[n - 1],
        )
    }
}

/// A table under the lowercase names of its tasks.
pub open spec fn normalized(table: TaskTable) -> TaskTable {
    normalize_prefix(table, table.names.len() as int)
}

/// Every name of the table is the lowercase form of some name.
pub open spec fn has_lowercase_names(table: TaskTable) -> bool {
    forall|i: int|
        0 <= i < table.names.len() ==> exists|written: Seq<char>| #[trigger]
            table.names[i] == lowercase_of(written)
}

/// A table under lowercase names is well formed.
pub proof fn lemma_normalized_is_well_formed(table: TaskTable, n: int)
    requires
        0 <= n <= table.names.len(),
    ensures
        normalize_prefix(table, n).wf(),
    decreases n,
{
    if n > 0 {
        lemma_normalized_is_well_formed(table, n - 1);
        normalize_prefix(table, n - 1).lemma_with_task(
            lowercase_of(table.names[n - 1]),
            table.versions[n - 1],
            lowercase_of(table.names[n - 1]),
        );
    }
}

/// Every task of a table is found under its lowercase name; its versions are
/// those of the last task of the table with that lowercase name.
pub proof fn lemma_normalized_lookup(table: TaskTable, i: int)
    requires
        0 <= i < table.names.len(),
        forall|j: int|
            i < j < table.names.len() ==> lowercase_of(#[trigger] table.names[j])
                != lowercase_of(table.names[i]),
    ensures
        normalized(table).versions_of(lowercase_of(table.names[i])) == Some(table.versions[i]),
{
    lemma_normalized_lookup_prefix(table, i, table.names.len() as int);
}

/// The lookup of a task among the first `n` tasks of a table under lowercase
/// names.
pub proof fn lemma_normalized_lookup_prefix(table: TaskTable, i: int, n: int)
    requires
        0 <= i < n <= table.names.len(),
        forall|j: int|
            i < j < n ==> lowercase_of(#[trigger] table.names[j]) != lowercase_of(
                table.names[i],
            ),
    ensures
        normalize_prefix(table, n).versions_of(lowercase_of(table.names[i])) == Some(
            table.versions[i],
        ),
    decreases n,
{
    let key = lowercase_of(table.names[i]);
    let before = normalize_prefix(table, n - 1);
    lemma_normalized_is_well_formed(table, n - 1);
    if n - 1 == i {
        before.lemma_with_task(key, table.versions[i], key);
    } else {
        lemma_normalized_lookup_prefix(table, i, n - 1);
        before.lemma_with_task(lowercase_of(table.names[n - 1]), table.versions[n - 1], key);
    }
}

/// The file that holds the registry where no other is named.
pub open spec fn default_config_path() -> Seq<char> {
    "ciprobeconfig.yml"@
}

/// The message of the error for a configuration file that does not exist,
/// with its path as it is shown.
pub open spec fn not_found_message(shown_path: Seq<char>) -> Seq<char> {
    "Config file not found at "@ + shown_path
}

/// `Debug` of `std::path::Path`: the path as the standard library shows it
/// to a developer, between quotes and with the escapes that the platform's
/// form of paths calls for. Nothing is stated of the result.
#[verifier::external_body]
fn path_debug(path: &str) -> (shown: String) {
    format!("{:?}", std::path::Path::new(path))
}

/// The error for a configuration file that does not exist, with its path as
/// it is shown.
pub fn not_found_error(shown_path: &str) -> (e: Error)
    ensures
        e matches Error::Config(msg) && msg@ == not_found_message(shown_path@),
{
    Error::Config(String::from_str("Config file not found at ").concat(shown_path))
}

/// A copy of a list of texts.
pub fn clone_strings(list: &Vec<String>) -> (copy: Vec<String>)
    ensures
        copy.deep_view() == list.deep_view(),
{
    let mut copy: Vec<String> = Vec::new();
    let mut i: usize = 0;
    while i < list.len()
        invariant
            i <= list.len(),
            copy.len() == i,
            forall|k: int| 0 <= k < i ==> (#[trigger] copy[k])@ == list[k]@,
        decreases list.len() - i,
    {
        copy.push(list[i].clone());
        i += 1;
    }
    assert(copy.deep_view() =~= list.deep_view());
    copy
}

/// The versions that a registry accepts for a task: those listed under the
/// lowercase form of its name, and none where nothing is listed there.
pub open spec fn valid_versions_for(
    registry: Map<Seq<char>, Seq<Seq<char>>>,
    task_name: Seq<char>,
) -> Seq<Seq<char>> {
    list_of(registry, lowercase_of(task_name))
}

/// The registry: for every known task, by its normalized name, the versions
/// that are accepted.
pub struct Config {
    pub task_versions: StringMap<Vec<String>>,
}

impl View for Config {
    type V = Map<Seq<char>, Seq<Seq<char>>>;

    open spec fn view(&self) -> Map<Seq<char>, Seq<Seq<char>>> {
        self.task_versions.deep_view()
    }
}

impl Config {
    /// Every task is registered once.
    pub open spec fn wf(&self) -> bool {
        self.task_versions.wf()
    }

    /// The names of the registered tasks, in the order of the registry.
    pub open spec fn task_names(&self) -> Seq<Seq<char>> {
        self.task_versions.key_seq()
    }

    /// The tasks and their versions, in the order of the registry.
    pub open spec fn table(&self) -> TaskTable {
        table_of(self.task_versions)
    }

    /// The path of the configuration file: the one that was named, or
    /// `ciprobeconfig.yml`.
    pub fn path_or_default(path: Option<&str>) -> (r: String)
        ensures
            r@ == match path {
                Some(p) => p@,
                None => default_config_path(),
            },
    {
        match path {
            Some(p) => String::from_str(p),
            None => String::from_str("ciprobeconfig.yml"),
        }
    }

    /// Loads the registry from the text of the configuration file at `path`;
    /// `content` is `None` where that file does not exist. The names of the
    /// tasks are put in lowercase. The error for a file that does not exist
    /// names its path as the standard library shows paths.
    pub fn load(path: Option<&str>, content: Option<&str>) -> (r: Result<Config, Error>)
        ensures
            match r {
                Ok(config) => {
                    &&& content matches Some(text)
                    &&& contains_text(text@, section_marker())
                    &&& parse_table(text@).names.len() > 0
                    &&& config.wf()
                    &&& config.table() == normalized(parse_table(text@))
                    &&& has_lowercase_names(config.table())
                },
                Err(e) => {
                    &&& e matches Error::Config(msg)
                    &&& match content {
                        None => exists|shown_path: Seq<char>|
                            msg@ == #[trigger] not_found_message(shown_path),
                        Some(text) => if !contains_text(text@, section_marker()) {
                            msg@ == no_section_message()
                        } else {
                            parse_table(text@).names.len() == 0 && msg@ == no_tasks_message()
                        },
                    }
                },
            },
    {
        let text = match content {
            None => {
                let shown_path = path_debug(Config::path_or_default(path).as_str());
                let e = not_found_error(shown_path.as_str());
                proof {
                    assert(e matches Error::Config(msg) && msg@ == not_found_message(shown_path@));
                }
                return Err(e);
            },
            Some(text) => text,
        };
        let yaml_config = match YamlConfig::load_from_file(text) {
            Err(e) => {
                return Err(e);
            },
            Ok(yaml_config) => yaml_config,
        };
        let mut config = Config { task_versions: yaml_config.task_versions };
        config.normalize_task_names();
        Ok(config)
    }

    /// Puts the name of every task in lowercase. Where two names agree in
    /// lowercase, the versions of the later one are kept.
    pub fn normalize_task_names(&mut self)
        requires
            old(self).wf(),
        ensures
            final(self).wf(),
            final(self).table() == normalized(old(self).table()),
            has_lowercase_names(final(self).table()),
    {
        let ghost source = self.table();
        let mut normalized_tasks: StringMap<Vec<String>> = StringMap::new();
        let n = self.task_versions.len();
        let mut i: usize = 0;
        proof {
            assert(normalized_tasks.deep_values() =~= Seq::<Seq<Seq<char>>>::empty());
        }
        while i < n
            invariant
                self.wf(),
                source == self.table(),
                n == source.names.len(),
                i <= n,
                normalized_tasks.wf(),
                table_of(normalized_tasks) == normalize_prefix(source, i as int),
                has_lowercase_names(table_of(normalized_tasks)),
            decreases n - i,
        {
            let key = lowercase(self.task_versions.key_at(i).as_str());
            let versions = clone_strings(self.task_versions.value_at(i));
            let ghost before = normalized_tasks;
            let ghost k = key@;
            let ghost vs = versions.deep_view();
            let slot = normalized_tasks.insert(key, versions);
            proof {
                assert(vs == source.versions[i as int]);
                if before.has(k) {
                    assert(normalized_tasks.deep_values() =~= before.deep_values().update(
                        slot as int,
                        vs,
                    ));
                } else {
                    assert(normalized_tasks.deep_values() =~= before.deep_values().push(vs));
                }
                assert forall|j: int| 0 <= j < normalized_tasks.key_seq().len() implies exists|
                    written: Seq<char>,
                | #[trigger] normalized_tasks.key_seq()[j] == lowercase_of(written) by {
                    if j < before.key_seq().len() {
                        assert(normalized_tasks.key_seq()[j] == before.key_seq()[j]);
                        let w = choose|written: Seq<char>| #[trigger]
                            table_of(before).names[j] == lowercase_of(written);
                        assert(normalized_tasks.key_seq()[j] == lowercase_of(w));
                    } else {
                        assert(normalized_tasks.key_seq()[j] == lowercase_of(
                            source.names[i as int],
                        ));
                    }
                }
            }
            i += 1;
        }
        self.task_versions = normalized_tasks;
    }

    /// Every registered task, in the order of the registry.
    pub fn get_all_tasks(&self) -> (tasks: Vec<SupportedTask>)
        requires
            self.wf(),
        ensures
            tasks.len() == self.task_names().len(),
            forall|i: int| 0 <= i < tasks.len() ==> (#[trigger] tasks[i]).name() == self.task_names()[i],
    {
        let mut tasks: Vec<SupportedTask> = Vec::new();
        let n = self.task_versions.len();
        let mut i: usize = 0;
        while i < n
            invariant
                self.wf(),
                i <= n,
                n == self.task_names().len(),
                tasks.len() == i,
                forall|k: int| 0 <= k < i ==> (#[trigger] tasks[k]).name() == self.task_names()[k],
            decreases n - i,
        {
            tasks.push(SupportedTask::Default(self.task_versions.key_at(i).clone()));
            i += 1;
        }
        tasks
    }

    /// The versions accepted for the task of that name, whatever the case in
    /// which the name is written: the task is looked up under its lowercase
    /// name. None for a task that the registry does not know.
    pub fn get_valid_versions<'a>(&'a self, task_name: &str) -> (versions: Vec<&'a str>)
        requires
            self.wf(),
        ensures
            versions.deep_view() == valid_versions_for(self@, task_name@),
    {
        let mut versions: Vec<&'a str> = Vec::new();
        let normalized = lowercase(task_name);
        match self.task_versions.get(normalized.as_str()) {
            None => {
                assert(versions.deep_view() =~= valid_versions_for(self@, task_name@));
            },
            Some(list) => {
                let mut i: usize = 0;
                while i < list.len()
                    invariant
                        i <= list.len(),
                        versions.len() == i,
                        forall|k: int| 0 <= k < i ==> (#[trigger] versions[k])@ == list[k]@,
                    decreases list.len() - i,
                {
                    versions.push(list[i].as_str());
                    i += 1;
                }
                assert(versions.deep_view() =~= list.deep_view());
            },
        }
        versions
    }
}

} // verus!
