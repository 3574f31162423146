//! Scanning the text of a pipeline file for task declarations.
//!
//! Every line is trimmed; comment lines are skipped; each remaining line that
//! declares a task contributes the key `name@version`. A key is reported
//! once, at the place of its first occurrence.

use crate::line_parser::{
    check_comment, is_comment, parse_task, parse_task_span, TaskDeclaration, TaskSpan,
};
use crate::string_map::StringSet;
use crate::text::{chars_of, line_spans, lines, spans_of, trim, trim_bounds, Span};
use vstd::prelude::*;

verus! {

/// The key of a declaration: its name, `@`, its version.
pub open spec fn task_key(d: TaskDeclaration) -> Seq<char> {
    d.name + seq!['@'] + d.version
}

/// The key that a line of a pipeline file contributes, if any.
pub open spec fn line_key(line: Seq<char>) -> Option<Seq<char>> {
    let t = trim(line);
    if is_comment(t) {
        None
    } else {
        match parse_task(t) {
            Some(d) => Some(task_key(d)),
            None => None,
        }
    }
}

/// The keys that a sequence of lines contributes, each once, in the order of
/// their first occurrence.
pub open spec fn scan_lines(ls: Seq<Seq<char>>) -> Seq<Seq<char>>
    decreases ls.len(),
{
    if ls.len() == 0 {
        Seq::empty()
    } else {
        let found = scan_lines(ls.drop_last());
        match line_key(ls.last()) {
            Some(key) => if found.contains(key) {
                found
            } else {
                found.push(key)
            },
            None => found,
        }
    }
}

/// The keys found in the text of a pipeline file.
pub open spec fn scan(content: Seq<char>) -> Seq<Seq<char>> {
    scan_lines(lines(content))
}

/// The keys found are exactly the keys that some line contributes, and none
/// is found twice.
pub proof fn lemma_scan_lines_set(ls: Seq<Seq<char>>)
    ensures
        scan_lines(ls).no_duplicates(),
        forall|key: Seq<char>|
            scan_lines(ls).contains(key) <==> exists|i: int|
                0 <= i < ls.len() && #[trigger] line_key(ls[i]) == Some(key),
    decreases ls.len(),
{
    if ls.len() == 0 {
    } else {
        let shorter = ls.drop_last();
        let found = scan_lines(shorter);
        let now = scan_lines(ls);
        lemma_scan_lines_set(shorter);
        assert forall|key: Seq<char>| now.contains(key) implies exists|i: int|
            0 <= i < ls.len() && #[trigger] line_key(ls[i]) == Some(key) by {
            if found.contains(key) {
                let i = choose|i: int|
                    0 <= i < shorter.len() && #[trigger] line_key(shorter[i]) == Some(key);
                assert(line_key(ls[i]) == Some(key));
            } else {
                let j = choose|j: int| 0 <= j < now.len() && now[j] == key;
                assert(j == found.len());
                assert(line_key(ls[ls.len() - 1]) == Some(key));
            }
        }
        assert forall|key: Seq<char>|
            (exists|i: int|
                0 <= i < ls.len() && #[trigger] line_key(ls[i]) == Some(key)) implies now.contains(
            key,
        ) by {
            let i = choose|i: int| 0 <= i < ls.len() && #[trigger] line_key(ls[i]) == Some(key);
            if i < shorter.len() {
                assert(line_key(shorter[i]) == Some(key));
                assert(found.contains(key));
                let j = choose|j: int| 0 <= j < found.len() && found[j] == key;
                assert(now[j] == key);
            } else {
                if found.contains(key) {
                } else {
                    assert(now[found.len() as int] == key);
                }
            }
        }
    }
}

/// Scanning is a function of the content alone: whatever two scans of one
/// content report, they report the same keys in the same order.
pub proof fn lemma_scan_is_repeatable(content: Seq<char>, first: StringSet, second: StringSet)
    requires
        first.item_seq() == scan(content),
        second.item_seq() == scan(content),
    ensures
        first@ == second@,
        first.item_seq() == second.item_seq(),
{
}

/// The key `name@version` of the declaration at `span`.
pub fn compose_key(v: &Vec<char>, span: TaskSpan) -> (key: String)
    requires
        span.within(0, v.len() as int),
    ensures
        key@ == task_key(span.declaration(v@)),
{
    let mut key = String::new();
    let mut i: usize = span.name_start;
    while i < span.name_end
        invariant
            span.within(0, v.len() as int),
            span.name_start <= i <= span.name_end,
            key@ == v@.subrange(span.name_start as int, i as int),
        decreases span.name_end - i,
    {
        key.push(v[i]);
        i += 1;
        assert(v@.subrange(span.name_start as int, i as int) =~= v@.subrange(
            span.name_start as int,
            i - 1,
        ).push(v@[i - 1]));
    }
    key.push('@');
    let ghost head = key@;
    assert(head =~= span.declaration(v@).name + seq!['@']);
    let mut j: usize = span.version_start;
    while j < span.version_end
        invariant
            span.within(0, v.len() as int),
            span.version_start <= j <= span.version_end,
            key@ == head + v@.subrange(span.version_start as int, j as int),
        decreases span.version_end - j,
    {
        key.push(v[j]);
        j += 1;
        assert(v@.subrange(span.version_start as int, j as int) =~= v@.subrange(
            span.version_start as int,
            j - 1,
        ).push(v@[j - 1]));
        assert(key@ =~= head + v@.subrange(span.version_start as int, j as int));
    }
    key
}

/// Scans the text of a pipeline file and reports the key `name@version` of
/// every task that it declares, each once.
pub fn analyze_pipeline_file(content: &str) -> (found: StringSet)
    ensures
        found.wf(),
        found.item_seq() == scan(content@),
{
    let v = chars_of(content);
    let spans = line_spans(&v);
    let ghost ls = lines(content@);
    let mut found = StringSet::new();
    let mut i: usize = 0;
    proof {
        assert(ls.take(0) =~= Seq::<Seq<char>>::empty());
    }
    while i < spans.len()
        invariant
            v@ == content@,
            ls == lines(content@),
            spans_of(spans@, v@) == ls,
            forall|k: int| 0 <= k < spans.len() ==> (#[trigger] spans[k]).within(0, v.len() as int),
            i <= spans.len(),
            found.wf(),
            found.item_seq() == scan_lines(ls.take(i as int)),
        decreases spans.len() - i,
    {
        let span: Span = spans[i];
        proof {
            assert(span.within(0, v.len() as int));
            assert(ls[i as int] == span.of(v@));
            assert(ls.take(i + 1).drop_last() =~= ls.take(i as int));
            assert(ls.take(i + 1).last() == ls[i as int]);
        }
        let (a, b) = trim_bounds(&v, span.start, span.end);
        if !check_comment(&v, a, b) {
            match parse_task_span(&v, a, b) {
                Some(task) => {
                    let key = compose_key(&v, task);
                    found.insert(key);
                },
                None => {},
            }
        }
        i += 1;
    }
    proof {
        assert(ls.take(spans.len() as int) =~= ls);
    }
    found
}

} // verus!
