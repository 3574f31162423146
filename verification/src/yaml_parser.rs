//! Reading the registry from its configuration text.
//!
//! The text is read line by line. A line that begins with `task_versions:`
//! opens the section of the registry. A deeper line that ends with `:` names a
//! task; a deeper line that begins with `-` adds a version to the task named
//! last. A line that is not deeper than the opening line closes the section.
//! Empty lines and lines that begin with `#` are passed over.

use crate::error::Error;
use crate::string_map::StringMap;
use crate::text::{
    byte_len, chars_of, leading_whitespace, lemma_occurs_at_shift, line_spans, lines, matches_at,
    spans_of, starts_with, string_from, strip, strip_bounds, strip_end, strip_end_bounds,
    strip_start, strip_start_bounds, trim, trim_bounds, trim_start, trim_start_bounds, Span,
};
use vstd::prelude::*;
use vstd::string::StringExecFns;

verus! {

/// The registry as it stands in a configuration text.
pub struct YamlConfig {
    pub task_versions: StringMap<Vec<String>>,
}

/// Tasks and their versions, in the order in which the tasks were first
/// named.
pub struct TaskTable {
    pub names: Seq<Seq<char>>,
    pub versions: Seq<Seq<Seq<char>>>,
}

impl TaskTable {
    /// The table without any task.
    pub open spec fn empty() -> TaskTable {
        TaskTable { names: Seq::empty(), versions: Seq::empty() }
    }

    /// The table with `versions` stored for `name`: in the place of what was
    /// stored for it, or as the last task.
    pub open spec fn with_task(self, name: Seq<char>, versions: Seq<Seq<char>>) -> TaskTable {
        if self.names.contains(name) {
            TaskTable { versions: self.versions.update(self.names.index_of(name), versions), ..self }
        } else {
            TaskTable { names: self.names.push(name), versions: self.versions.push(versions) }
        }
    }

    /// The table with `version` added to the versions of `name`, where
    /// `name` is a task of the table.
    pub open spec fn with_version(self, name: Seq<char>, version: Seq<char>) -> TaskTable {
        if self.names.contains(name) {
            let i = self.names.index_of(name);
            TaskTable { versions: self.versions.update(i, self.versions[i].push(version)), ..self }
        } else {
            self
        }
    }
}

impl TaskTable {
    /// Every task has its versions, and no task is named twice.
    pub open spec fn wf(self) -> bool {
        &&& self.names.len() == self.versions.len()
        &&& self.names.no_duplicates()
    }

    /// The versions stored for `name`, where `name` is a task of the table.
    pub open spec fn versions_of(self, name: Seq<char>) -> Option<Seq<Seq<char>>> {
        if self.names.contains(name) {
            Some(self.versions[self.names.index_of(name)])
        } else {
            None
        }
    }

    /// Storing versions for a task keeps the table well formed, makes them
    /// the versions of that task, and leaves every other task as it was.
    pub proof fn lemma_with_task(self, name: Seq<char>, versions: Seq<Seq<char>>, other: Seq<char>)
        requires
            self.wf(),
        ensures
            self.with_task(name, versions).wf(),
            self.with_task(name, versions).versions_of(name) == Some(versions),
            other != name ==> self.with_task(name, versions).versions_of(other)
                == self.versions_of(other),
    {
        let after = self.with_task(name, versions);
        if self.names.contains(name) {
            let i = self.names.index_of(name);
            assert(after.names.index_of(name) == i);
            if other != name && self.names.contains(other) {
                let j = self.names.index_of(other);
                assert(after.names.index_of(other) == j);
            }
        } else {
            let n = self.names.len() as int;
            assert forall|a: int, b: int|
                0 <= a < after.names.len() && 0 <= b < after.names.len() && a != b implies after.names[a]
                != after.names[b] by {
                if a < n {
                    assert(self.names.contains(self.names[a]));
                }
                if b < n {
                    assert(self.names.contains(self.names[b]));
                }
            }
            assert(after.names[n] == name);
            assert(after.names.contains(name));
            let i = after.names.index_of(name);
            assert(i == n);
            if other != name {
                if self.names.contains(other) {
                    let j = self.names.index_of(other);
                    assert(after.names[j] == other);
                    assert(after.names.contains(other));
                    assert(after.names.index_of(other) == j);
                }
                if after.names.contains(other) {
                    let j = after.names.index_of(other);
                    assert(j < n);
                    assert(self.names[j] == other);
                }
            }
        }
    }
}

/// The table that a map holds.
pub open spec fn table_of(map: StringMap<Vec<String>>) -> TaskTable {
    TaskTable { names: map.key_seq(), versions: map.deep_values() }
}

impl View for YamlConfig {
    type V = TaskTable;

    open spec fn view(&self) -> TaskTable {
        table_of(self.task_versions)
    }
}

/// What has been read of a configuration text.
pub struct ParseState {
    /// The tasks read so far.
    pub table: TaskTable,
    /// The indentation of the line that opened the section, in bytes.
    pub section_indent: nat,
    /// Whether the section is open.
    pub in_section: bool,
    /// The task named last; empty before the first.
    pub current_task: Seq<char>,
}

/// The line that opens the section of the registry.
pub open spec fn section_marker() -> Seq<char> {
    "task_versions:"@
}

/// The task that a line names: the line without the colons at its end,
/// without quotes around it, trimmed.
pub open spec fn task_name_of(trimmed: Seq<char>) -> Seq<char> {
    trim(strip(strip(strip_end(trimmed, ':'), '\''), '"'))
}

/// The version that a line lists: the line without the dashes at its start,
/// trimmed, without quotes around it, trimmed again.
pub open spec fn version_of(trimmed: Seq<char>) -> Seq<char> {
    trim(strip(strip(trim(strip_start(trimmed, '-')), '\''), '"'))
}

/// The indentation of a line: the bytes of its leading whitespace.
pub open spec fn indent_of(line: Seq<char>) -> nat {
    byte_len(line.take(leading_whitespace(line)))
}

/// What one line adds to what has been read.
pub open spec fn parse_line(state: ParseState, line: Seq<char>) -> ParseState {
    let trimmed = trim_start(line);
    if trimmed.len() == 0 || trimmed.first() == '#' {
        state
    } else if starts_with(trimmed, section_marker()) {
        ParseState { in_section: true, section_indent: indent_of(line), ..state }
    } else if state.in_section && indent_of(line) > state.section_indent {
        if trimmed.last() == ':' {
            let name = task_name_of(trimmed);
            ParseState {
                table: state.table.with_task(name, Seq::empty()),
                current_task: name,
                ..state
            }
        } else if trimmed.first() == '-' {
            let version = version_of(trimmed);
            if version.len() > 0 && state.current_task.len() > 0 {
                ParseState { table: state.table.with_version(state.current_task, version), ..state }
            } else {
                state
            }
        } else {
            state
        }
    } else if indent_of(line) <= state.section_indent {
        ParseState { in_section: false, ..state }
    } else {
        state
    }
}

/// What a sequence of lines amounts to.
pub open spec fn parse_lines(ls: Seq<Seq<char>>) -> ParseState
    decreases ls.len(),
{
    if ls.len() == 0 {
        ParseState {
            table: TaskTable::empty(),
            section_indent: 0,
            in_section: false,
            current_task: Seq::empty(),
        }
    } else {
        parse_line(parse_lines(ls.drop_last()), ls.last())
    }
}

/// The tasks that a configuration text registers.
pub open spec fn parse_table(content: Seq<char>) -> TaskTable {
    parse_lines(lines(content)).table
}

/// The message of the error for a text that registers no task.
pub open spec fn no_tasks_message() -> Seq<char> {
    "No valid task versions found in config"@
}

/// The message of the error for a text without the section of the registry.
pub open spec fn no_section_message() -> Seq<char> {
    "Invalid config file: missing task_versions section"@
}

impl YamlConfig {
    /// Every task is registered once.
    pub open spec fn wf(&self) -> bool {
        self.task_versions.wf()
    }

    /// Reads the registry from a configuration text. A text that registers
    /// no task is refused.
    pub fn parse(content: &str) -> (r: Result<YamlConfig, Error>)
        ensures
            match r {
                Ok(config) => config.wf() && config@ == parse_table(content@)
                    && config@.names.len() > 0,
                Err(e) => {
                    &&& parse_table(content@).names.len() == 0
                    &&& e matches Error::Config(msg)
                    &&& msg@ == no_tasks_message()
                },
            },
    {
        let v = chars_of(content);
        let spans = line_spans(&v);
        let marker = chars_of("task_versions:");
        let ghost ls = lines(content@);
        let mut table: StringMap<Vec<String>> = StringMap::new();
        let mut section_indent: u128 = 0;
        let mut in_section: bool = false;
        let mut current_task: String = String::new();
        let mut i: usize = 0;
        proof {
            assert(ls.take(0) =~= Seq::<Seq<char>>::empty());
            assert(table.deep_values() =~= Seq::<Seq<Seq<char>>>::empty());
        }
        while i < spans.len()
            invariant
                v@ == content@,
                marker@ == section_marker(),
                ls == lines(content@),
                spans_of(spans@, v@) == ls,
                forall|k: int|
                    0 <= k < spans.len() ==> (#[trigger] spans[k]).within(0, v.len() as int),
                i <= spans.len(),
                table.wf(),
                parse_lines(ls.take(i as int)) == (ParseState {
                    table: table_of(table),
                    section_indent: section_indent as nat,
                    in_section,
                    current_task: current_task@,
                }),
            decreases spans.len() - i,
        {
            let span: Span = spans[i];
            let ghost line = ls[i as int];
            proof {
                assert(span.within(0, v.len() as int));
                assert(line == span.of(v@));
                assert(ls.take(i + 1).drop_last() =~= ls.take(i as int));
                assert(ls.take(i + 1).last() == line);
            }
            let hi = span.end;
            let (a, indent) = trim_start_bounds(&v, span.start, hi);
            let ghost trimmed = v@.subrange(a as int, hi as int);
            proof {
                assert(line.take(a - span.start) =~= v@.subrange(span.start as int, a as int));
                assert(indent == indent_of(line));
                if a < hi {
                    assert(trimmed.first() == v@[a as int]);
                    assert(trimmed.last() == v@[hi - 1]);
                }
            }
            if a == hi || v[a] == '#' {
            } else {
                let at_marker = matches_at(&v, a, hi, &marker);
                proof {
                    lemma_occurs_at_shift(v@, a as int, hi as int, marker@, a as int);
                }
                if at_marker {
                    in_section = true;
                    section_indent = indent;
                } else if in_section && indent > section_indent {
                    if v[hi - 1] == ':' {
                        let b1 = strip_end_bounds(&v, a, hi, ':');
                        let (c1, d1) = strip_bounds(&v, a, b1, '\'');
                        let (c2, d2) = strip_bounds(&v, c1, d1, '"');
                        let (c3, d3) = trim_bounds(&v, c2, d2);
                        let name = string_from(&v, c3, d3);
                        assert(name@ == task_name_of(trimmed));
                        current_task = name.clone();
                        let ghost old_table = table;
                        let empty: Vec<String> = Vec::new();
                        proof {
                            assert(empty.deep_view() =~= Seq::<Seq<char>>::empty());
                        }
                        let slot = table.insert(name, empty);
                        proof {
                            if old_table.has(current_task@) {
                                assert(table.deep_values() =~= old_table.deep_values().update(
                                    slot as int,
                                    Seq::empty(),
                                ));
                            } else {
                                assert(table.deep_values() =~= old_table.deep_values().push(
                                    Seq::empty(),
                                ));
                            }
                        }
                    } else if v[a] == '-' {
                        let a1 = strip_start_bounds(&v, a, hi, '-');
                        let (t0, t1) = trim_bounds(&v, a1, hi);
                        let (c1, d1) = strip_bounds(&v, t0, t1, '\'');
                        let (c2, d2) = strip_bounds(&v, c1, d1, '"');
                        let (c3, d3) = trim_bounds(&v, c2, d2);
                        assert(v@.subrange(c3 as int, d3 as int) == version_of(trimmed));
                        if c3 < d3 && current_task.as_str().unicode_len() > 0 {
                            match table.position(current_task.as_str()) {
                                Some(slot) => {
                                    let ghost old_table = table;
                                    let version = string_from(&v, c3, d3);
                                    let ghost added = version@;
                                    let list = table.value_mut(slot);
                                    list.push(version);
                                    proof {
                                        let now = table.value_seq()[slot as int];
                                        assert(now.deep_view() =~= old_table.deep_values()[slot as int].push(
                                            added,
                                        ));
                                        assert(table.deep_values() =~= old_table.deep_values().update(
                                            slot as int,
                                            old_table.deep_values()[slot as int].push(added),
                                        ));
                                    }
                                },
                                None => {},
                            }
                        }
                    }
                } else if indent <= section_indent {
                    in_section = false;
                }
            }
            i += 1;
        }
        proof {
            assert(ls.take(spans.len() as int) =~= ls);
        }
        if table.is_empty() {
            Err(Error::Config(String::from_str("No valid task versions found in config")))
        } else {
            Ok(YamlConfig { task_versions: table })
        }
    }

    /// Reads the registry from the text of a configuration file. A text
    /// without the words `task_versions:` is refused, and so is one that
    /// registers no task.
    pub fn load_from_file(content: &str) -> (r: Result<YamlConfig, Error>)
        ensures
            match r {
                Ok(config) => {
                    &&& crate::text::contains_text(content@, section_marker())
                    &&& config.wf()
                    &&& config@ == parse_table(content@)
                    &&& config@.names.len() > 0
                },
                Err(e) => {
                    &&& e matches Error::Config(msg)
                    &&& if !crate::text::contains_text(content@, section_marker()) {
                        msg@ == no_section_message()
                    } else {
                        parse_table(content@).names.len() == 0 && msg@ == no_tasks_message()
                    }
                },
            },
    {
        let v = chars_of(content);
        let marker = chars_of("task_versions:");
        proof {
            assert(v@.subrange(0, v.len() as int) =~= content@);
            crate::text::lemma_find_contains(content@, section_marker());
        }
        match crate::text::find_in(&v, 0, v.len(), &marker) {
            None => Err(
                Error::Config(
                    String::from_str("Invalid config file: missing task_versions section"),
                ),
            ),
            Some(_) => YamlConfig::parse(content),
        }
    }
}

} // verus!
