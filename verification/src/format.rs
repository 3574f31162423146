//! Numbers and lists as text, and texts in order.

use crate::text::chars_of;
use vstd::prelude::*;
use vstd::string::StringExecFns;

verus! {

/// The character of a decimal digit.
pub open spec fn digit_char(d: nat) -> char {
    if d == 0 {
        '0'
    } else if d == 1 {
        '1'
    } else if d == 2 {
        '2'
    } else if d == 3 {
        '3'
    } else if d == 4 {
        '4'
    } else if d == 5 {
        '5'
    } else if d == 6 {
        '6'
    } else if d == 7 {
        '7'
    } else if d == 8 {
        '8'
    } else {
        '9'
    }
}

/// A number in decimal notation, without leading zeros.
pub open spec fn decimal_digits(n: nat) -> Seq<char>
    decreases n,
{
    if n < 10 {
        seq![digit_char(n)]
    } else {
        decimal_digits(n / 10).push(digit_char(n % 10))
    }
}

/// The character of the decimal digit `d`.
fn digit_of(d: usize) -> (c: char)
    requires
        d < 10,
    ensures
        c == digit_char(d as nat),
{
    if d == 0 {
        '0'
    } else if d == 1 {
        '1'
    } else if d == 2 {
        '2'
    } else if d == 3 {
        '3'
    } else if d == 4 {
        '4'
    } else if d == 5 {
        '5'
    } else if d == 6 {
        '6'
    } else if d == 7 {
        '7'
    } else if d == 8 {
        '8'
    } else {
        '9'
    }
}

/// A number in decimal notation.
pub fn decimal_text(n: usize) -> (text: String)
    ensures
        text@ == decimal_digits(n as nat),
{
    // The digits are found from the last to the first.
    let mut reversed: Vec<char> = Vec::new();
    let mut rest: usize = n;
    while rest >= 10
        invariant
            decimal_digits(n as nat) == decimal_digits(rest as nat) + reversed@.reverse(),
        decreases rest,
    {
        let ghost before = reversed@;
        reversed.push(digit_of(rest % 10));
        proof {
            assert(reversed@.reverse() =~= seq![digit_char((rest % 10) as nat)] + before.reverse());
            assert(decimal_digits(rest as nat) + before.reverse() =~= decimal_digits(
                (rest / 10) as nat,
            ) + reversed@.reverse());
        }
        rest = rest / 10;
    }
    reversed.push(digit_of(rest));
    let mut text = String::new();
    let mut i: usize = reversed.len();
    proof {
        let before = reversed@.drop_last();
        assert(reversed@.reverse() =~= seq![digit_char(rest as nat)] + before.reverse());
        assert(decimal_digits(n as nat) =~= reversed@.reverse());
        assert(reversed@.reverse().take(0) =~= Seq::<char>::empty());
    }
    while i > 0
        invariant
            i <= reversed.len(),
            text@ == reversed@.reverse().take(reversed.len() - i),
        decreases i,
    {
        i -= 1;
        text.push(reversed[i]);
        proof {
            let all = reversed@.reverse();
            let k = reversed.len() - i;
            assert(all.take(k) =~= all.take(k - 1).push(all[k - 1]));
            assert(all[k - 1] == reversed@[i as int]);
        }
    }
    proof {
        assert(reversed@.reverse().take(reversed.len() as int) =~= reversed@.reverse());
    }
    text
}

/// The texts of `parts` with `sep` between each two.
pub open spec fn joined_with(parts: Seq<Seq<char>>, sep: Seq<char>) -> Seq<char>
    decreases parts.len(),
{
    if parts.len() == 0 {
        Seq::empty()
    } else if parts.len() == 1 {
        parts[0]
    } else {
        joined_with(parts.drop_last(), sep) + sep + parts.last()
    }
}

/// Appends to `out` the texts of `parts` with `sep` between each two.
pub fn append_joined(out: &mut String, parts: &Vec<String>, sep: &str)
    ensures
        final(out)@ == old(out)@ + joined_with(parts.deep_view(), sep@),
{
    let ghost all = parts.deep_view();
    let mut i: usize = 0;
    proof {
        assert(all.take(0) =~= Seq::<Seq<char>>::empty());
        assert(out@ =~= old(out)@ + joined_with(all.take(0), sep@));
    }
    while i < parts.len()
        invariant
            all == parts.deep_view(),
            i <= parts.len(),
            out@ == old(out)@ + joined_with(all.take(i as int), sep@),
        decreases parts.len() - i,
    {
        let ghost before = out@;
        proof {
            assert(all.take(i + 1).drop_last() =~= all.take(i as int));
            assert(all.take(i + 1).last() == parts[i as int]@);
        }
        if i > 0 {
            out.append(sep);
        }
        out.append(parts[i].as_str());
        proof {
            if i == 0 {
                assert(all.take(1)[0] == parts[0]@);
                assert(joined_with(all.take(0), sep@) =~= Seq::<char>::empty());
                assert(out@ =~= old(out)@ + joined_with(all.take(1), sep@));
            } else {
                assert(out@ =~= old(out)@ + (joined_with(all.take(i as int), sep@) + sep@
                    + parts[i as int]@));
            }
        }
        i += 1;
    }
    proof {
        assert(all.take(parts.len() as int) =~= all);
    }
}

/// Whether `a` comes before `b`, or is `b`, in the order of the dictionary:
/// character by character, by code point; a text comes before its
/// continuations.
pub open spec fn text_le(a: Seq<char>, b: Seq<char>) -> bool
    decreases a.len(),
{
    if a.len() == 0 {
        true
    } else if b.len() == 0 {
        false
    } else if (a.first() as u32) < (b.first() as u32) {
        true
    } else if (a.first() as u32) > (b.first() as u32) {
        false
    } else {
        text_le(a.drop_first(), b.drop_first())
    }
}

/// Whether each text of `s` comes before the next, or is the next.
pub open spec fn is_sorted(s: Seq<Seq<char>>) -> bool {
    forall|i: int, j: int| 0 <= i <= j < s.len() ==> text_le(#[trigger] s[i], #[trigger] s[j])
}

/// The place of `x` in the sorted `s`: before the first text that comes
/// after it.
pub open spec fn insertion_point(s: Seq<Seq<char>>, x: Seq<char>) -> int
    decreases s.len(),
{
    if s.len() == 0 || !text_le(s.last(), x) {
        if s.len() == 0 {
            0
        } else {
            insertion_point(s.drop_last(), x)
        }
    } else {
        s.len() as int
    }
}

/// The texts of `s` in the order of the dictionary; equal texts keep their
/// order.
pub open spec fn sorted(s: Seq<Seq<char>>) -> Seq<Seq<char>>
    decreases s.len(),
{
    if s.len() == 0 {
        Seq::empty()
    } else {
        let before = sorted(s.drop_last());
        before.insert(insertion_point(before, s.last()), s.last())
    }
}

/// Every text comes before itself, or is itself.
pub proof fn lemma_text_le_reflexive(a: Seq<char>)
    ensures
        text_le(a, a),
    decreases a.len(),
{
    if a.len() > 0 {
        lemma_text_le_reflexive(a.drop_first());
    }
}

/// Of two texts, one comes before the other, or they are the same text.
pub proof fn lemma_text_le_total(a: Seq<char>, b: Seq<char>)
    ensures
        text_le(a, b) || text_le(b, a),
    decreases a.len(),
{
    if a.len() > 0 && b.len() > 0 && a.first() as u32 == b.first() as u32 {
        lemma_text_le_total(a.drop_first(), b.drop_first());
    }
}

/// What comes before a text comes before what that text comes before.
pub proof fn lemma_text_le_transitive(a: Seq<char>, b: Seq<char>, c: Seq<char>)
    requires
        text_le(a, b),
        text_le(b, c),
    ensures
        text_le(a, c),
    decreases a.len(),
{
    if a.len() > 0 && b.len() > 0 && c.len() > 0 {
        if a.first() as u32 == b.first() as u32 && b.first() as u32 == c.first() as u32 {
            lemma_text_le_transitive(a.drop_first(), b.drop_first(), c.drop_first());
        }
    }
}

/// The insertion point lies within the sequence; what stands before it comes
/// before `x` or is `x`, and `x` comes before what stands from it on.
pub proof fn lemma_insertion_point(s: Seq<Seq<char>>, x: Seq<char>)
    requires
        is_sorted(s),
    ensures
        0 <= insertion_point(s, x) <= s.len(),
        forall|i: int| 0 <= i < insertion_point(s, x) ==> text_le(#[trigger] s[i], x),
        forall|i: int| insertion_point(s, x) <= i < s.len() ==> text_le(x, #[trigger] s[i]),
    decreases s.len(),
{
    if s.len() == 0 {
    } else if !text_le(s.last(), x) {
        let shorter = s.drop_last();
        assert forall|i: int, j: int| 0 <= i <= j < shorter.len() implies text_le(
            #[trigger] shorter[i],
            #[trigger] shorter[j],
        ) by {
            assert(text_le(s[i], s[j]));
        }
        lemma_insertion_point(shorter, x);
        lemma_text_le_total(s.last(), x);
        assert forall|i: int| insertion_point(s, x) <= i < s.len() implies text_le(
            x,
            #[trigger] s[i],
        ) by {
            if i < shorter.len() {
                assert(s[i] == shorter[i]);
            }
        }
        assert forall|i: int| 0 <= i < insertion_point(s, x) implies text_le(#[trigger] s[i], x) by {
            assert(s[i] == shorter[i]);
        }
    } else {
        assert forall|i: int| 0 <= i < s.len() implies text_le(#[trigger] s[i], x) by {
            assert(text_le(s[i], s[s.len() - 1]));
            lemma_text_le_transitive(s[i], s.last(), x);
        }
    }
}

/// Sorting gives the same texts, as often as they were given, in the order
/// of the dictionary.
pub proof fn lemma_sorted(s: Seq<Seq<char>>)
    ensures
        is_sorted(sorted(s)),
        sorted(s).len() == s.len(),
        sorted(s).to_multiset() == s.to_multiset(),
    decreases s.len(),
{
    broadcast use vstd::seq_lib::group_to_multiset_ensures;

    if s.len() == 0 {
    } else {
        let shorter = s.drop_last();
        let before = sorted(shorter);
        let x = s.last();
        let at = insertion_point(before, x);
        lemma_sorted(shorter);
        lemma_insertion_point(before, x);
        let after = before.insert(at, x);
        before.insert_ensures(at, x);
        lemma_text_le_reflexive(x);
        assert forall|i: int, j: int| 0 <= i <= j < after.len() implies text_le(
            #[trigger] after[i],
            #[trigger] after[j],
        ) by {
            if i < at {
                assert(after[i] == before[i]);
                if j < at {
                    assert(after[j] == before[j]);
                } else if j == at {
                } else {
                    assert(after[j] == before[j - 1]);
                    assert(text_le(before[i], before[j - 1]));
                }
            } else if i == at {
                if j > at {
                    assert(after[j] == before[j - 1]);
                }
            } else {
                assert(after[i] == before[i - 1]);
                assert(after[j] == before[j - 1]);
                assert(text_le(before[i - 1], before[j - 1]));
            }
        }
        assert(after.remove(at) =~= before);
        assert(s =~= shorter.push(x));
        assert(after.to_multiset() =~= before.to_multiset().insert(x)) by {
            assert(after.remove(at).to_multiset() =~= after.to_multiset().remove(after[at]));
            assert(after.to_multiset().count(x) > 0);
        }
    }
}

/// Whether `a` comes before `b`, or is `b`, in the order of the dictionary.
pub fn text_before_or_same(a: &Vec<char>, b: &Vec<char>) -> (r: bool)
    ensures
        r == text_le(a@, b@),
{
    let mut i: usize = 0;
    proof {
        assert(a@.skip(0) =~= a@);
        assert(b@.skip(0) =~= b@);
    }
    while i < a.len() && i < b.len()
        invariant
            i <= a.len(),
            i <= b.len(),
            text_le(a@, b@) == text_le(a@.skip(i as int), b@.skip(i as int)),
        decreases a.len() - i,
    {
        let x: u32 = a[i] as u32;
        let y: u32 = b[i] as u32;
        proof {
            assert(a@.skip(i as int).first() == a@[i as int]);
            assert(b@.skip(i as int).first() == b@[i as int]);
            assert(a@.skip(i as int).drop_first() =~= a@.skip(i + 1));
            assert(b@.skip(i as int).drop_first() =~= b@.skip(i + 1));
        }
        if x < y {
            return true;
        }
        if x > y {
            return false;
        }
        i += 1;
    }
    proof {
        assert(a@.skip(a.len() as int) =~= Seq::<char>::empty());
        assert(b@.skip(b.len() as int) =~= Seq::<char>::empty());
    }
    i == a.len()
}

/// The texts of `list` in the order of the dictionary.
pub fn sorted_texts(list: &Vec<String>) -> (out: Vec<String>)
    ensures
        out.deep_view() == sorted(list.deep_view()),
{
    let ghost all = list.deep_view();
    let mut out: Vec<String> = Vec::new();
    let mut keys: Vec<Vec<char>> = Vec::new();
    let mut i: usize = 0;
    proof {
        assert(all.take(0) =~= Seq::<Seq<char>>::empty());
        assert(out.deep_view() =~= Seq::<Seq<char>>::empty());
    }
    while i < list.len()
        invariant
            all == list.deep_view(),
            i <= list.len(),
            out.len() == keys.len(),
            forall|k: int| 0 <= k < keys.len() ==> (#[trigger] keys[k])@ == out[k]@,
            out.deep_view() == sorted(all.take(i as int)),
        decreases list.len() - i,
    {
        let text = &list[i];
        let key = chars_of(text.as_str());
        let ghost before = out.deep_view();
        proof {
            assert(all.take(i + 1).drop_last() =~= all.take(i as int));
            assert(all.take(i + 1).last() == text@);
        }
        // The place is sought from the end, so that equal texts keep their
        // order.
        let mut at: usize = out.len();
        proof {
            assert(before.take(at as int) =~= before);
        }
        while at > 0 && !text_before_or_same(&keys[at - 1], &key)
            invariant
                at <= out.len(),
                out.len() == keys.len(),
                before == out.deep_view(),
                key@ == text@,
                forall|k: int| 0 <= k < keys.len() ==> (#[trigger] keys[k])@ == out[k]@,
                insertion_point(before, text@) == insertion_point(before.take(at as int), text@),
            decreases at,
        {
            proof {
                let prefix = before.take(at as int);
                assert(prefix.last() == before[at - 1]);
                assert(before[at - 1] == keys[at - 1]@);
                assert(prefix.drop_last() =~= before.take(at - 1));
            }
            at -= 1;
        }
        proof {
            let prefix = before.take(at as int);
            if at > 0 {
                assert(prefix.last() == before[at - 1]);
                assert(before[at - 1] == keys[at - 1]@);
            }
            assert(insertion_point(before, text@) == at);
        }
        out.insert(at, text.clone());
        keys.insert(at, key);
        proof {
            assert(out.deep_view() =~= before.insert(at as int, text@));
            assert forall|k: int| 0 <= k < keys.len() implies (#[trigger] keys[k])@ == out[k]@ by {}
        }
        i += 1;
    }
    proof {
        assert(all.take(list.len() as int) =~= all);
    }
    out
}

} // verus!
