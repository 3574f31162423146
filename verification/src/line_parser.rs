//! Recognising a task declaration in one line of a pipeline file.
//!
//! A declaration has the form `task: <name>@<version>`. The marker `task:`
//! may stand anywhere in the line; name and version are taken around the
//! first `@` that follows it, each without surrounding whitespace.

use crate::text::{
    all_whitespace, chars_of, check_ascii_digit, check_letter_or_digit, contains_text, find,
    find_in, is_ascii_alphanumeric, is_ascii_digit, is_letter_or_digit, lemma_find_contains,
    lemma_find_is, lemma_occurs_in_piece, lemma_trim_bounds, lemma_trim_padded, occurs_at,
    string_from, trim, trim_bounds,
};
use vstd::prelude::*;

verus! {

/// A task declaration as it was read from a line.
#[derive(Debug, PartialEq)]
pub struct TaskDefinition {
    pub name: String,
    pub version: String,
}

/// The mathematical value of a [`TaskDefinition`].
pub struct TaskDeclaration {
    pub name: Seq<char>,
    pub version: Seq<char>,
}

impl View for TaskDefinition {
    type V = TaskDeclaration;

    open spec fn view(&self) -> TaskDeclaration {
        TaskDeclaration { name: self.name@, version: self.version@ }
    }
}

/// The marker that introduces a declaration.
pub open spec fn task_marker() -> Seq<char> {
    seq!['t', 'a', 's', 'k', ':']
}

/// The separator between name and version.
pub open spec fn version_separator() -> Seq<char> {
    seq!['@']
}

/// A line that begins with `#` or with `//`.
pub open spec fn is_comment(t: Seq<char>) -> bool {
    ||| t.len() >= 1 && t[0] == '#'
    ||| t.len() >= 2 && t[0] == '/' && t[1] == '/'
}

/// A character that may stand in a task name.
pub open spec fn is_name_char(c: char) -> bool {
    is_letter_or_digit(c) || c == '_' || c == '/'
}

/// A task name: not empty, made of letters, digits, `_` and `/`.
pub open spec fn is_valid_name(name: Seq<char>) -> bool {
    &&& name.len() > 0
    &&& forall|i: int| 0 <= i < name.len() ==> is_name_char(#[trigger] name[i])
}

/// A version marker: not empty, made of ASCII digits.
pub open spec fn is_valid_version(version: Seq<char>) -> bool {
    &&& version.len() > 0
    &&& forall|i: int| 0 <= i < version.len() ==> is_ascii_digit(#[trigger] version[i])
}

/// What is declared by the text that follows the marker.
pub open spec fn parse_declaration(rest: Seq<char>) -> Option<TaskDeclaration> {
    match find(rest, version_separator()) {
        None => None,
        Some(at) => {
            let name = trim(rest.take(at));
            let version = trim(rest.skip(at + 1));
            if is_valid_name(name) && is_valid_version(version) {
                Some(TaskDeclaration { name, version })
            } else {
                None
            }
        },
    }
}

/// The task that a line declares, if it declares one.
pub open spec fn parse_task(line: Seq<char>) -> Option<TaskDeclaration> {
    let t = trim(line);
    if t.len() == 0 || is_comment(t) {
        None
    } else {
        match find(t, task_marker()) {
            None => None,
            Some(p) => parse_declaration(trim(t.skip(p + task_marker().len()))),
        }
    }
}

/// The characters of the marker.
fn marker_chars() -> (m: Vec<char>)
    ensures
        m@ == task_marker(),
{
    let mut m: Vec<char> = Vec::new();
    m.push('t');
    m.push('a');
    m.push('s');
    m.push('k');
    m.push(':');
    assert(m@ =~= task_marker());
    m
}

/// The character that separates name and version.
fn separator_chars() -> (m: Vec<char>)
    ensures
        m@ == version_separator(),
{
    let mut m: Vec<char> = Vec::new();
    m.push('@');
    assert(m@ =~= version_separator());
    m
}

/// Whether `v[lo..hi]` is a comment.
pub fn check_comment(v: &Vec<char>, lo: usize, hi: usize) -> (r: bool)
    requires
        lo <= hi <= v.len(),
    ensures
        r == is_comment(v@.subrange(lo as int, hi as int)),
{
    (hi - lo >= 1 && v[lo] == '#') || (hi - lo >= 2 && v[lo] == '/' && v[lo + 1] == '/')
}

/// Whether `v[lo..hi]` is a task name.
pub fn check_valid_name(v: &Vec<char>, lo: usize, hi: usize) -> (r: bool)
    requires
        lo <= hi <= v.len(),
    ensures
        r == is_valid_name(v@.subrange(lo as int, hi as int)),
{
    let ghost s = v@.subrange(lo as int, hi as int);
    if lo == hi {
        return false;
    }
    let mut i: usize = lo;
    while i < hi
        invariant
            lo <= i <= hi <= v.len(),
            s == v@.subrange(lo as int, hi as int),
            forall|k: int| 0 <= k < i - lo ==> is_name_char(#[trigger] s[k]),
        decreases hi - i,
    {
        let c = v[i];
        if !(check_letter_or_digit(c) || c == '_' || c == '/') {
            assert(!is_name_char(s[i - lo]));
            return false;
        }
        i += 1;
    }
    true
}

/// Whether `v[lo..hi]` is a version marker.
pub fn check_valid_version(v: &Vec<char>, lo: usize, hi: usize) -> (r: bool)
    requires
        lo <= hi <= v.len(),
    ensures
        r == is_valid_version(v@.subrange(lo as int, hi as int)),
{
    let ghost s = v@.subrange(lo as int, hi as int);
    if lo == hi {
        return false;
    }
    let mut i: usize = lo;
    while i < hi
        invariant
            lo <= i <= hi <= v.len(),
            s == v@.subrange(lo as int, hi as int),
            forall|k: int| 0 <= k < i - lo ==> is_ascii_digit(#[trigger] s[k]),
        decreases hi - i,
    {
        if !check_ascii_digit(v[i]) {
            assert(!is_ascii_digit(s[i - lo]));
            return false;
        }
        i += 1;
    }
    true
}

/// The place of a declaration within a vector of characters: the name is
/// `v[name_start..name_end]`, the version `v[version_start..version_end]`.
#[derive(Clone, Copy, Debug)]
pub struct TaskSpan {
    pub name_start: usize,
    pub name_end: usize,
    pub version_start: usize,
    pub version_end: usize,
}

impl TaskSpan {
    /// The span lies within `lo..hi`, the name before the version.
    pub open spec fn within(&self, lo: int, hi: int) -> bool {
        lo <= self.name_start <= self.name_end <= self.version_start <= self.version_end <= hi
    }

    /// The declaration that the span cuts out of `v`.
    pub open spec fn declaration(&self, v: Seq<char>) -> TaskDeclaration {
        TaskDeclaration {
            name: v.subrange(self.name_start as int, self.name_end as int),
            version: v.subrange(self.version_start as int, self.version_end as int),
        }
    }
}

/// Finds the declaration in `v[lo..hi]`, as bounds into `v`.
pub fn parse_task_span(v: &Vec<char>, lo: usize, hi: usize) -> (r: Option<TaskSpan>)
    requires
        lo <= hi <= v.len(),
    ensures
        match r {
            Some(span) => span.within(lo as int, hi as int) && parse_task(
                v@.subrange(lo as int, hi as int),
            ) == Some(span.declaration(v@)),
            None => parse_task(v@.subrange(lo as int, hi as int)) is None,
        },
{
    let (a, b) = trim_bounds(v, lo, hi);
    let ghost t = v@.subrange(a as int, b as int);
    if a == b || check_comment(v, a, b) {
        return None;
    }
    let marker = marker_chars();
    let p = match find_in(v, a, b, &marker) {
        None => {
            return None;
        },
        Some(p) => p,
    };
    let after: usize = p + marker.len();
    assert(t.skip(p - a + task_marker().len()) =~= v@.subrange(after as int, b as int));
    let (c, d) = trim_bounds(v, after, b);
    let ghost rest = v@.subrange(c as int, d as int);
    let separator = separator_chars();
    let at = match find_in(v, c, d, &separator) {
        None => {
            return None;
        },
        Some(at) => at,
    };
    assert(rest.take(at - c) =~= v@.subrange(c as int, at as int));
    assert(rest.skip(at - c + 1) =~= v@.subrange(at + 1, d as int));
    let (n0, n1) = trim_bounds(v, c, at);
    let (v0, v1) = trim_bounds(v, at + 1, d);
    if check_valid_name(v, n0, n1) && check_valid_version(v, v0, v1) {
        Some(TaskSpan { name_start: n0, name_end: n1, version_start: v0, version_end: v1 })
    } else {
        None
    }
}

/// Reads the task that a line declares.
///
/// Returns `None` for an empty line, a comment, a line without the marker
/// `task:`, without an `@` after it, or with a name or a version that is not
/// well formed.
pub fn parse_task_definition(line: &str) -> (r: Option<TaskDefinition>)
    ensures
        match r {
            Some(def) => parse_task(line@) == Some(def@),
            None => parse_task(line@) is None,
        },
{
    let v = chars_of(line);
    assert(v@.subrange(0, v@.len() as int) =~= line@);
    match parse_task_span(&v, 0, v.len()) {
        None => None,
        Some(span) => Some(
            TaskDefinition {
                name: string_from(&v, span.name_start, span.name_end),
                version: string_from(&v, span.version_start, span.version_end),
            },
        ),
    }
}

/// A task name written in ASCII: letters, digits, `_` and `/`, at least one.
pub open spec fn is_ascii_name(name: Seq<char>) -> bool {
    &&& name.len() > 0
    &&& forall|i: int|
        0 <= i < name.len() ==> {
            let c = #[trigger] name[i];
            is_ascii_alphanumeric(c) || c == '_' || c == '/'
        }
}

/// A line of the form `task: <name>@<digits>` declares exactly that name and
/// that version, whatever whitespace surrounds the marker, the name and the
/// version.
pub proof fn lemma_parse_accepts_declaration(
    w1: Seq<char>,
    w2: Seq<char>,
    name: Seq<char>,
    w3: Seq<char>,
    w4: Seq<char>,
    version: Seq<char>,
    w5: Seq<char>,
)
    requires
        all_whitespace(w1),
        all_whitespace(w2),
        all_whitespace(w3),
        all_whitespace(w4),
        all_whitespace(w5),
        is_ascii_name(name),
        is_valid_version(version),
    ensures
        parse_task(
            w1 + task_marker() + w2 + name + w3 + version_separator() + w4 + version + w5,
        ) == Some(TaskDeclaration { name, version }),
{
    let line = w1 + task_marker() + w2 + name + w3 + version_separator() + w4 + version + w5;
    let rest = name + w3 + version_separator() + w4 + version;
    let body = task_marker() + w2 + rest;
    assert(line =~= w1 + body + w5);
    assert(body.first() == 't');
    assert(body.last() == version.last());
    assert(is_ascii_digit(version[version.len() - 1]));
    lemma_trim_padded(w1, body, w5);
    assert(trim(line) == body);
    assert(!is_comment(body));

    // The marker stands at the very start of the trimmed line.
    assert(body.subrange(0, task_marker().len() as int) =~= task_marker());
    lemma_find_is(body, task_marker(), 0);
    assert(body.skip(task_marker().len() as int) =~= w2 + rest + Seq::<char>::empty());
    assert(rest.first() == name.first());
    assert(rest.last() == version.last());
    assert(is_name_char(name[0]));
    lemma_trim_padded(w2, rest, Seq::<char>::empty());
    assert(trim(body.skip(task_marker().len() as int)) == rest);

    // The first `@` is the one written between name and version.
    let at = (name.len() + w3.len()) as int;
    assert(rest.subrange(at, at + 1) =~= version_separator());
    assert forall|j: int| 0 <= j < at implies !occurs_at(rest, version_separator(), j) by {
        if j < name.len() {
            assert(rest[j] == name[j]);
        } else {
            assert(rest[j] == w3[j - name.len()]);
        }
        assert(rest.subrange(j, j + 1)[0] == rest[j]);
    }
    lemma_find_is(rest, version_separator(), at);

    assert(rest.take(at) =~= Seq::<char>::empty() + name + w3);
    assert(is_name_char(name[name.len() - 1]));
    lemma_trim_padded(Seq::<char>::empty(), name, w3);
    assert(rest.skip(at + 1) =~= w4 + version + Seq::<char>::empty());
    assert(is_ascii_digit(version[0]));
    lemma_trim_padded(w4, version, Seq::<char>::empty());
    assert forall|i: int| 0 <= i < name.len() implies is_name_char(#[trigger] name[i]) by {}
}

/// A line without the marker `task:` declares nothing.
pub proof fn lemma_parse_needs_marker(line: Seq<char>)
    requires
        !contains_text(line, task_marker()),
    ensures
        parse_task(line) is None,
{
    let t = trim(line);
    let (lo, hi) = lemma_trim_bounds(line);
    lemma_find_contains(t, task_marker());
    if find(t, task_marker()) is Some {
        let p = find(t, task_marker())->0;
        lemma_occurs_in_piece(line, lo, hi, task_marker(), p);
    }
}

/// Whatever a line declares has a well-formed name and a well-formed version:
/// a line whose name segment is empty or holds another character, or whose
/// version segment is empty or holds anything but digits, declares nothing.
pub proof fn lemma_parsed_is_well_formed(line: Seq<char>)
    ensures
        parse_task(line) matches Some(d) ==> is_valid_name(d.name) && is_valid_version(d.version),
        parse_task(line) is Some ==> contains_text(line, task_marker()) && contains_text(
            line,
            version_separator(),
        ),
{
    if parse_task(line) is Some {
        let t = trim(line);
        let (lo, hi) = lemma_trim_bounds(line);
        lemma_find_contains(t, task_marker());
        let p = find(t, task_marker())->0;
        lemma_occurs_in_piece(line, lo, hi, task_marker(), p);
        let after = t.skip(p + task_marker().len());
        let rest = trim(after);
        let (c, d) = lemma_trim_bounds(after);
        lemma_find_contains(rest, version_separator());
        let at = find(rest, version_separator())->0;
        lemma_occurs_in_piece(after, c, d, version_separator(), at);
        assert(after =~= t.subrange(p + task_marker().len(), t.len() as int));
        lemma_occurs_in_piece(
            t,
            p + task_marker().len(),
            t.len() as int,
            version_separator(),
            c + at,
        );
        lemma_occurs_in_piece(
            line,
            lo,
            hi,
            version_separator(),
            p + task_marker().len() + c + at,
        );
    }
}

} // verus!
