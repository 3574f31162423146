//! Paths as texts whose components are separated by `/`, and the names of
//! files.

use crate::git_manager::join_path;
use crate::text::{chars_of, push_all, split, split_spans, spans_of, string_of, Span};
use vstd::prelude::*;

verus! {

/// A component that names a file or a directory: not empty, and neither `.`
/// nor `..`.
pub open spec fn is_normal_component(component: Seq<char>) -> bool {
    &&& component.len() > 0
    &&& component != seq!['.']
    &&& component != seq!['.', '.']
}

/// The components among `parts` that name a file or a directory, joined
/// with `/`.
pub open spec fn join_normal(parts: Seq<Seq<char>>) -> Seq<char>
    decreases parts.len(),
{
    if parts.len() == 0 {
        Seq::empty()
    } else if is_normal_component(parts.last()) {
        join_path(join_normal(parts.drop_last()), parts.last())
    } else {
        join_normal(parts.drop_last())
    }
}

/// A path without its root, without `.` and without `..`: a path that stays
/// below the directory from which it is followed.
pub open spec fn sanitized(path: Seq<char>) -> Seq<char> {
    join_normal(split(path, '/'))
}

/// Removes from a path whatever could lead out of the directory from which
/// it is followed: the root, `.` and `..`.
pub fn sanitize_file_path(path: &str) -> (r: String)
    ensures
        r@ == sanitized(path@),
{
    let v = chars_of(path);
    proof {
        assert(v@.subrange(0, v.len() as int) =~= path@);
        reveal_strlit("/");
    }
    let spans = split_spans(&v, 0, v.len(), '/');
    let ghost parts = split(path@, '/');
    let mut out: Vec<char> = Vec::new();
    let mut i: usize = 0;
    proof {
        assert(parts.take(0) =~= Seq::<Seq<char>>::empty());
    }
    while i < spans.len()
        invariant
            i <= spans.len(),
            spans_of(spans@, v@) == parts,
            forall|k: int| 0 <= k < spans.len() ==> (#[trigger] spans[k]).within(0, v.len() as int),
            out@ == join_normal(parts.take(i as int)),
            "/"@ == seq!['/'],
        decreases spans.len() - i,
    {
        let span: Span = spans[i];
        let ghost part = parts[i as int];
        proof {
            assert(span.within(0, v.len() as int));
            assert(part == span.of(v@));
            assert(parts.take(i + 1).drop_last() =~= parts.take(i as int));
            assert(parts.take(i + 1).last() == part);
        }
        let n = span.end - span.start;
        let dot = n == 1 && v[span.start] == '.';
        let dot_dot = n == 2 && v[span.start] == '.' && v[span.start + 1] == '.';
        proof {
            if n == 1 {
                assert(part[0] == v@[span.start as int]);
                assert(dot <==> part =~= seq!['.']);
            }
            if n == 2 {
                assert(part[0] == v@[span.start as int]);
                assert(part[1] == v@[span.start + 1]);
                assert(dot_dot <==> part =~= seq!['.', '.']);
            }
        }
        if n > 0 && !dot && !dot_dot {
            let ghost before = out@;
            if out.len() > 0 && out[out.len() - 1] != '/' {
                out.push('/');
            }
            push_all(&mut out, &v, span.start, span.end);
            proof {
                assert(out@ =~= join_path(before, part));
            }
        }
        i += 1;
    }
    proof {
        assert(parts.take(spans.len() as int) =~= parts);
    }
    string_of(&out)
}

/// The index of the last `c` in `s`, or -1 where there is none.
pub open spec fn last_index_of(s: Seq<char>, c: char) -> int
    decreases s.len(),
{
    if s.len() == 0 {
        -1
    } else if s.last() == c {
        s.len() - 1
    } else {
        last_index_of(s.drop_last(), c)
    }
}

/// The extension of a file name: what follows its last `.`, unless that is
/// its first character.
pub open spec fn extension_of(file_name: Seq<char>) -> Option<Seq<char>> {
    let dot = last_index_of(file_name, '.');
    if dot <= 0 {
        None
    } else {
        Some(file_name.skip(dot + 1))
    }
}

/// Whether a file of that name is a candidate for a pipeline file: its
/// extension is `yml` or `yaml`.
pub open spec fn is_pipeline_name(file_name: Seq<char>) -> bool {
    extension_of(file_name) == Some(seq!['y', 'm', 'l']) || extension_of(file_name) == Some(
        seq!['y', 'a', 'm', 'l'],
    )
}

/// Whether a file of that name is a candidate for a pipeline file.
pub fn is_pipeline_file_name(file_name: &str) -> (r: bool)
    ensures
        r == is_pipeline_name(file_name@),
{
    let v = chars_of(file_name);
    let mut dot: usize = v.len();
    proof {
        assert(v@.take(dot as int) =~= v@);
    }
    while dot > 0 && v[dot - 1] != '.'
        invariant
            dot <= v.len(),
            v@ == file_name@,
            last_index_of(v@, '.') == last_index_of(v@.take(dot as int), '.'),
        decreases dot,
    {
        proof {
            assert(v@.take(dot as int).drop_last() =~= v@.take(dot - 1));
            assert(v@.take(dot as int).last() == v@[dot - 1]);
        }
        dot -= 1;
    }
    proof {
        if dot > 0 {
            assert(v@.take(dot as int).last() == v@[dot - 1]);
        }
        assert(last_index_of(v@, '.') == dot - 1);
    }
    if dot <= 1 {
        return false;
    }
    let n = v.len() - dot;
    let ghost extension = v@.skip(dot as int);
    proof {
        assert(extension_of(file_name@) == Some(extension));
        assert(extension.len() == n);
        assert(seq!['y', 'm', 'l'].len() == 3);
        assert(seq!['y', 'a', 'm', 'l'].len() == 4);
        if n == 3 {
            assert(extension =~= seq!['y', 'm', 'l'] <==> (v@[dot as int] == 'y' && v@[dot + 1]
                == 'm' && v@[dot + 2] == 'l')) by {
                assert(extension[0] == v@[dot as int]);
                assert(extension[1] == v@[dot + 1]);
                assert(extension[2] == v@[dot + 2]);
            }
        }
        if n == 4 {
            assert(extension =~= seq!['y', 'a', 'm', 'l'] <==> (v@[dot as int] == 'y' && v@[dot
                + 1] == 'a' && v@[dot + 2] == 'm' && v@[dot + 3] == 'l')) by {
                assert(extension[0] == v@[dot as int]);
                assert(extension[1] == v@[dot + 1]);
                assert(extension[2] == v@[dot + 2]);
                assert(extension[3] == v@[dot + 3]);
            }
        }
    }
    (n == 3 && v[dot] == 'y' && v[dot + 1] == 'm' && v[dot + 2] == 'l') || (n == 4 && v[dot] == 'y'
        && v[dot + 1] == 'a' && v[dot + 2] == 'm' && v[dot + 3] == 'l')
}

} // verus!
