//! Versions as dotted sequences of numbers.
//!
//! `2`, `2.0` and `2.0.0` denote one version: missing components count as
//! zero. A text that is no dotted sequence of numbers is a version only of
//! itself.

use crate::text::{
    chars_of, first_index_of, is_ascii_digit, lemma_first_index_of, lemma_first_index_of_is,
    spans_of, split, split_spans, Span,
};
use vstd::prelude::*;

verus! {

/// The number that a digit stands for; zero for any other character.
pub open spec fn digit_value(c: char) -> nat {
    if is_ascii_digit(c) {
        (c as u32 - 0x30) as nat
    } else {
        0
    }
}

/// The number written by a run of decimal digits.
pub open spec fn decimal_value(digits: Seq<char>) -> nat
    decreases digits.len(),
{
    if digits.len() == 0 {
        0
    } else {
        decimal_value(digits.drop_last()) * 10 + digit_value(digits.last())
    }
}

/// Every character of `s` is an ASCII digit.
pub open spec fn all_digits(s: Seq<char>) -> bool {
    forall|i: int| 0 <= i < s.len() ==> is_ascii_digit(#[trigger] s[i])
}

/// The digits of a component: the text without one leading `+`.
pub open spec fn unsigned_digits(s: Seq<char>) -> Seq<char> {
    if s.len() > 0 && s[0] == '+' {
        s.skip(1)
    } else {
        s
    }
}

/// One component of a version: decimal digits, at least one, after an
/// optional `+`, with a value that fits in 32 bits.
pub open spec fn parse_component(s: Seq<char>) -> Option<u32> {
    let digits = unsigned_digits(s);
    if digits.len() > 0 && all_digits(digits) && decimal_value(digits) <= u32::MAX {
        Some(decimal_value(digits) as u32)
    } else {
        None
    }
}

/// The components of a version, where every piece between dots is a number.
pub open spec fn parse_version(s: Seq<char>) -> Option<Seq<u32>> {
    let parts = split(s, '.');
    if forall|i: int| 0 <= i < parts.len() ==> parse_component(#[trigger] parts[i]) is Some {
        Some(Seq::new(parts.len(), |i: int| parse_component(parts[i])->0))
    } else {
        None
    }
}

/// The component at `i`, zero beyond the last one written.
pub open spec fn component_at(v: Seq<u32>, i: int) -> u32 {
    if 0 <= i < v.len() {
        v[i]
    } else {
        0
    }
}

/// Two component sequences that agree once the shorter is padded with zeros.
pub open spec fn same_components(a: Seq<u32>, b: Seq<u32>) -> bool {
    forall|i: int| 0 <= i ==> #[trigger] component_at(a, i) == component_at(b, i)
}

/// Whether two texts denote the same version.
pub open spec fn versions_equal(a: Seq<char>, b: Seq<char>) -> bool {
    match (parse_version(a), parse_version(b)) {
        (Some(x), Some(y)) => same_components(x, y),
        _ => a == b,
    }
}

/// The value of a run of digits is at least the value of each of its
/// beginnings.
pub proof fn lemma_decimal_value_grows(digits: Seq<char>, k: int)
    requires
        0 <= k <= digits.len(),
    ensures
        decimal_value(digits.take(k)) <= decimal_value(digits),
    decreases digits.len() - k,
{
    if k == digits.len() {
        assert(digits.take(k) =~= digits);
    } else {
        let shorter = digits.drop_last();
        lemma_decimal_value_grows(shorter, k);
        assert(shorter.take(k) =~= digits.take(k));
    }
}

/// Reads `v[lo..hi]` as one component of a version.
pub fn read_component(v: &Vec<char>, lo: usize, hi: usize) -> (r: Option<u32>)
    requires
        lo <= hi <= v.len(),
    ensures
        r == parse_component(v@.subrange(lo as int, hi as int)),
{
    let ghost s = v@.subrange(lo as int, hi as int);
    let start: usize = if lo < hi && v[lo] == '+' {
        lo + 1
    } else {
        lo
    };
    let ghost digits = v@.subrange(start as int, hi as int);
    proof {
        assert(unsigned_digits(s) =~= digits);
    }
    if start == hi {
        return None;
    }
    let mut value: u64 = 0;
    let mut i: usize = start;
    while i < hi
        invariant
            lo <= start <= i <= hi <= v.len(),
            start < hi,
            digits == v@.subrange(start as int, hi as int),
            digits == unsigned_digits(v@.subrange(lo as int, hi as int)),
            all_digits(digits.take(i - start)),
            value == decimal_value(digits.take(i - start)),
            value <= u32::MAX,
        decreases hi - i,
    {
        let c = v[i];
        let u: u32 = c as u32;
        let ghost prefix = digits.take(i - start);
        let ghost longer = digits.take(i - start + 1);
        proof {
            assert(longer.drop_last() =~= prefix);
            assert(longer.last() == c);
            assert(digits[i - start] == c);
        }
        if !(0x30 <= u && u <= 0x39) {
            return None;
        }
        value = value * 10 + (u - 0x30) as u64;
        proof {
            assert(value == decimal_value(longer));
            assert forall|k: int| 0 <= k < longer.len() implies is_ascii_digit(
                #[trigger] longer[k],
            ) by {
                if k < prefix.len() {
                    assert(longer[k] == prefix[k]);
                }
            }
        }
        if value > 0xFFFF_FFFF {
            proof {
                lemma_decimal_value_grows(digits, i - start + 1);
            }
            return None;
        }
        i += 1;
    }
    proof {
        assert(digits.take(hi - start) =~= digits);
    }
    Some(value as u32)
}

/// Reads a version as its components.
pub fn read_version(v: &Vec<char>) -> (r: Option<Vec<u32>>)
    ensures
        match r {
            Some(c) => parse_version(v@) == Some(c@),
            None => parse_version(v@) is None,
        },
{
    let spans = split_spans(v, 0, v.len(), '.');
    let ghost parts = split(v@, '.');
    proof {
        assert(v@.subrange(0, v.len() as int) =~= v@);
    }
    let mut out: Vec<u32> = Vec::new();
    let mut i: usize = 0;
    while i < spans.len()
        invariant
            i <= spans.len(),
            spans_of(spans@, v@) == parts,
            parts == split(v@, '.'),
            forall|k: int| 0 <= k < spans.len() ==> (#[trigger] spans[k]).within(0, v.len() as int),
            out.len() == i,
            forall|k: int| 0 <= k < i ==> parse_component(#[trigger] parts[k]) == Some(out[k]),
        decreases spans.len() - i,
    {
        let span: Span = spans[i];
        assert(span.within(0, v.len() as int));
        assert(parts[i as int] == span.of(v@));
        match read_component(v, span.start, span.end) {
            None => {
                return None;
            },
            Some(n) => {
                out.push(n);
            },
        }
        i += 1;
    }
    proof {
        assert(out@ =~= Seq::new(parts.len(), |i: int| parse_component(parts[i])->0));
    }
    Some(out)
}

/// Compares two component sequences, the shorter one padded with zeros.
pub fn components_match(a: &Vec<u32>, b: &Vec<u32>) -> (r: bool)
    ensures
        r == same_components(a@, b@),
{
    let n: usize = if a.len() > b.len() {
        a.len()
    } else {
        b.len()
    };
    let mut i: usize = 0;
    while i < n
        invariant
            i <= n,
            n >= a.len(),
            n >= b.len(),
            forall|k: int| 0 <= k < i ==> #[trigger] component_at(a@, k) == component_at(b@, k),
        decreases n - i,
    {
        let x: u32 = if i < a.len() {
            a[i]
        } else {
            0
        };
        let y: u32 = if i < b.len() {
            b[i]
        } else {
            0
        };
        if x != y {
            assert(component_at(a@, i as int) != component_at(b@, i as int));
            return false;
        }
        i += 1;
    }
    assert forall|k: int| 0 <= k implies #[trigger] component_at(a@, k) == component_at(b@, k) by {
        if k >= n {
        }
    }
    true
}

/// Whether two texts denote the same version.
pub fn versions_match(a: &str, b: &str) -> (r: bool)
    ensures
        r == versions_equal(a@, b@),
{
    let left = read_version(&chars_of(a));
    let right = read_version(&chars_of(b));
    match (left, right) {
        (Some(x), Some(y)) => components_match(&x, &y),
        _ => *a == *b,
    }
}

/// Texts that can be compared as versions.
pub trait VersionCompare {
    /// The text that is compared.
    spec fn version_text(&self) -> Seq<char>;

    /// Whether `self` and `other` denote the same version: component by
    /// component where both are dotted numbers, letter by letter otherwise.
    fn version_matches(&self, other: &str) -> (r: bool)
        ensures
            r == versions_equal(self.version_text(), other@),
    ;
}

impl VersionCompare for String {
    open spec fn version_text(&self) -> Seq<char> {
        self@
    }

    fn version_matches(&self, other: &str) -> (r: bool) {
        versions_match(self.as_str(), other)
    }
}

/// Every text denotes the version that it denotes.
pub proof fn lemma_versions_equal_reflexive(v: Seq<char>)
    ensures
        versions_equal(v, v),
{
}

/// Whether two texts denote one version does not depend on their order.
pub proof fn lemma_versions_equal_symmetric(a: Seq<char>, b: Seq<char>)
    ensures
        versions_equal(a, b) == versions_equal(b, a),
{
    if parse_version(a) is Some && parse_version(b) is Some {
        let x = parse_version(a)->0;
        let y = parse_version(b)->0;
        if same_components(x, y) {
            assert forall|i: int| 0 <= i implies #[trigger] component_at(y, i) == component_at(
                x,
                i,
            ) by {
                assert(component_at(x, i) == component_at(y, i));
            }
        }
        if same_components(y, x) {
            assert forall|i: int| 0 <= i implies #[trigger] component_at(x, i) == component_at(
                y,
                i,
            ) by {
                assert(component_at(y, i) == component_at(x, i));
            }
        }
    }
}

/// Texts that denote the version of a third text denote one version.
pub proof fn lemma_versions_equal_transitive(a: Seq<char>, b: Seq<char>, c: Seq<char>)
    requires
        versions_equal(a, b),
        versions_equal(b, c),
    ensures
        versions_equal(a, c),
{
    if parse_version(a) is Some && parse_version(b) is Some && parse_version(c) is Some {
        let x = parse_version(a)->0;
        let y = parse_version(b)->0;
        let z = parse_version(c)->0;
        assert forall|i: int| 0 <= i implies #[trigger] component_at(x, i) == component_at(z, i) by {
            assert(component_at(x, i) == component_at(y, i));
            assert(component_at(y, i) == component_at(z, i));
        }
    }
}

/// Splitting a text that ends with a separator and a piece without
/// separators gives the pieces of what stands before, and that piece.
pub proof fn lemma_split_last_piece(s: Seq<char>, sep: char, piece: Seq<char>)
    requires
        forall|i: int| 0 <= i < piece.len() ==> #[trigger] piece[i] != sep,
    ensures
        split(s + seq![sep] + piece, sep) == split(s, sep).push(piece),
    decreases s.len(),
{
    let whole = s + seq![sep] + piece;
    let n = first_index_of(s, sep);
    lemma_first_index_of(s, sep);
    assert forall|i: int| 0 <= i < n implies #[trigger] whole[i] != sep by {
        assert(whole[i] == s[i]);
    }
    if n < s.len() {
        assert(whole[n] == s[n]);
        lemma_first_index_of_is(whole, sep, n);
        assert(whole.take(n) =~= s.take(n));
        assert(whole.skip(n + 1) =~= s.skip(n + 1) + seq![sep] + piece);
        lemma_split_last_piece(s.skip(n + 1), sep, piece);
        assert(split(whole, sep) =~= split(s, sep).push(piece));
    } else {
        assert(whole[n] == sep);
        lemma_first_index_of_is(whole, sep, n);
        assert(whole.take(n) =~= s);
        assert(whole.skip(n + 1) =~= piece);
        lemma_first_index_of_is(piece, sep, piece.len() as int);
        assert(split(piece, sep) =~= seq![piece]);
        assert(split(s, sep) =~= seq![s]);
        assert(split(whole, sep) =~= split(s, sep).push(piece));
    }
}

/// A version denotes the same version with `.0` written after it: `2`,
/// `2.0` and `2.0.0` are one version.
pub proof fn lemma_trailing_zero_component(v: Seq<char>)
    requires
        parse_version(v) is Some,
    ensures
        parse_version(v + seq!['.', '0']) is Some,
        versions_equal(v, v + seq!['.', '0']),
        versions_equal(v + seq!['.', '0'], v),
{
    let zero = seq!['0'];
    let longer = v + seq!['.', '0'];
    assert(longer =~= v + seq!['.'] + zero);
    lemma_split_last_piece(v, '.', zero);
    let parts = split(v, '.');
    let more = split(longer, '.');
    assert(unsigned_digits(zero) == zero);
    assert(zero.drop_last() =~= Seq::<char>::empty());
    assert(decimal_value(zero) == 0) by {
        reveal_with_fuel(decimal_value, 2);
    }
    assert(parse_component(zero) == Some(0u32));
    assert forall|i: int| 0 <= i < more.len() implies parse_component(#[trigger] more[i]) is Some by {
        if i < parts.len() {
            assert(more[i] == parts[i]);
        }
    }
    let x = parse_version(v)->0;
    let y = parse_version(longer)->0;
    assert forall|i: int| 0 <= i implies #[trigger] component_at(x, i) == component_at(y, i) by {
        if i < parts.len() {
            assert(more[i] == parts[i]);
        }
    }
    lemma_versions_equal_symmetric(v, longer);
}

} // verus!
