//! Text primitives over sequences of characters.
//!
//! Every function here has a mathematical counterpart on `Seq<char>`; the
//! executable versions work on a vector of characters and a pair of bounds,
//! so that a whole file can be taken apart without copying its lines.

use vstd::prelude::*;

verus! {

/// The characters that count as whitespace: those with the Unicode property
/// `White_Space`.
pub open spec fn is_whitespace(c: char) -> bool {
    let u = c as u32;
    ||| 0x09 <= u <= 0x0D
    ||| u == 0x20
    ||| u == 0x85
    ||| u == 0xA0
    ||| u == 0x1680
    ||| 0x2000 <= u <= 0x200A
    ||| u == 0x2028
    ||| u == 0x2029
    ||| u == 0x202F
    ||| u == 0x205F
    ||| u == 0x3000
}

/// The ten ASCII digits.
pub open spec fn is_ascii_digit(c: char) -> bool {
    0x30 <= c as u32 <= 0x39
}

/// The ASCII letters and digits.
pub open spec fn is_ascii_alphanumeric(c: char) -> bool {
    let u = c as u32;
    ||| 0x30 <= u <= 0x39
    ||| 0x41 <= u <= 0x5A
    ||| 0x61 <= u <= 0x7A
}

/// What `char::is_alphanumeric` answers for a character.
pub uninterp spec fn char_is_alphanumeric(c: char) -> bool;

/// `char::is_alphanumeric` of the standard library: the answer depends on the
/// character alone. Nothing else is assumed of it; the ASCII range is decided
/// by [`is_letter_or_digit`] without this call.
pub assume_specification[ char::is_alphanumeric ](c: char) -> (r: bool)
    ensures
        r == char_is_alphanumeric(c),
;

/// A letter or a digit: spelled out for ASCII, and as the standard library
/// classifies the character beyond it.
pub open spec fn is_letter_or_digit(c: char) -> bool {
    if (c as u32) < 0x80 {
        is_ascii_alphanumeric(c)
    } else {
        char_is_alphanumeric(c)
    }
}

/// Whether `c` is whitespace.
pub fn check_whitespace(c: char) -> (r: bool)
    ensures
        r == is_whitespace(c),
{
    let u: u32 = c as u32;
    (0x09 <= u && u <= 0x0D) || u == 0x20 || u == 0x85 || u == 0xA0 || u == 0x1680 || (0x2000 <= u
        && u <= 0x200A) || u == 0x2028 || u == 0x2029 || u == 0x202F || u == 0x205F || u == 0x3000
}

/// Whether `c` is one of the ten ASCII digits.
pub fn check_ascii_digit(c: char) -> (r: bool)
    ensures
        r == is_ascii_digit(c),
{
    let u: u32 = c as u32;
    0x30 <= u && u <= 0x39
}

/// Whether `c` is a letter or a digit.
pub fn check_letter_or_digit(c: char) -> (r: bool)
    ensures
        r == is_letter_or_digit(c),
{
    let u: u32 = c as u32;
    if u < 0x80 {
        (0x30 <= u && u <= 0x39) || (0x41 <= u && u <= 0x5A) || (0x61 <= u && u <= 0x7A)
    } else {
        c.is_alphanumeric()
    }
}

/// The characters of a string slice, in order.
pub fn chars_of(s: &str) -> (out: Vec<char>)
    ensures
        out@ == s@,
{
    let mut out: Vec<char> = Vec::new();
    for c in it: s.chars()
        invariant
            out@ == it.seq().take(it.index() as int),
            it.seq() == s@,
    {
        out.push(c);
    }
    out
}

/// `String::push` of the standard library appends one character.
pub assume_specification[ String::push ](s: &mut String, c: char)
    ensures
        final(s)@ == old(s)@.push(c),
;

/// `str == str` of the standard library compares the two texts character by
/// character.
pub assume_specification[ <str as PartialEq>::eq ](a: &str, b: &str) -> (r: bool)
    ensures
        r == (a@ == b@),
;

/// What `str::to_lowercase` returns for a text.
pub uninterp spec fn str_to_lowercase(s: Seq<char>) -> Seq<char>;

/// `str::to_lowercase` of the standard library: the lowercase form depends on
/// the text alone. Nothing else is assumed of it; ASCII text is put in
/// lowercase by [`lowercase`] without this call.
pub assume_specification[ str::to_lowercase ](s: &str) -> (r: String)
    ensures
        r@ == str_to_lowercase(s@),
;

/// Every character of `s` is an ASCII character.
pub open spec fn is_ascii_text(s: Seq<char>) -> bool {
    forall|i: int| 0 <= i < s.len() ==> (#[trigger] s[i] as u32) < 0x80
}

/// The lowercase form of an ASCII character: the small letter of a capital
/// letter, and every other character itself.
pub open spec fn ascii_lowercase_char(c: char) -> char {
    if 0x41 <= c as u32 <= 0x5A {
        ((c as u32 + 0x20) as u8) as char
    } else {
        c
    }
}

/// The lowercase form of an ASCII text, character by character.
pub open spec fn ascii_lowercase(s: Seq<char>) -> Seq<char> {
    Seq::new(s.len(), |i: int| ascii_lowercase_char(s[i]))
}

/// The lowercase form of a text: spelled out for ASCII text, and as the
/// standard library gives it for any other.
pub open spec fn lowercase_of(s: Seq<char>) -> Seq<char> {
    if is_ascii_text(s) {
        ascii_lowercase(s)
    } else {
        str_to_lowercase(s)
    }
}

/// An ASCII text without capital letters is its own lowercase form.
pub proof fn lemma_lowercase_of_small_ascii(s: Seq<char>)
    requires
        is_ascii_text(s),
        forall|i: int| 0 <= i < s.len() ==> !(0x41 <= (#[trigger] s[i] as u32) <= 0x5A),
    ensures
        lowercase_of(s) == s,
{
    assert(ascii_lowercase(s) =~= s);
}

/// The lowercase form of a text.
pub fn lowercase(s: &str) -> (r: String)
    ensures
        r@ == lowercase_of(s@),
{
    let v = chars_of(s);
    let mut out = String::new();
    let mut i: usize = 0;
    while i < v.len()
        invariant
            i <= v.len(),
            v@ == s@,
            is_ascii_text(v@.take(i as int)),
            out@ == ascii_lowercase(v@.take(i as int)),
        decreases v.len() - i,
    {
        let c = v[i];
        let u: u32 = c as u32;
        if u >= 0x80 {
            proof {
                assert(!is_ascii_text(s@)) by {
                    assert(s@[i as int] as u32 >= 0x80);
                }
            }
            return s.to_lowercase();
        }
        let lower: char = if 0x41 <= u && u <= 0x5A {
            ((u + 0x20) as u8) as char
        } else {
            c
        };
        out.push(lower);
        proof {
            let before = v@.take(i as int);
            let now = v@.take(i + 1);
            assert(now =~= before.push(c));
            assert(ascii_lowercase(now) =~= ascii_lowercase(before).push(ascii_lowercase_char(c)));
            assert forall|k: int| 0 <= k < now.len() implies (#[trigger] now[k] as u32) < 0x80 by {
                if k < i {
                    assert(now[k] == before[k]);
                }
            }
        }
        i += 1;
    }
    proof {
        assert(v@.take(v.len() as int) =~= v@);
    }
    out
}

/// The string made of `v[lo..hi]`.
pub fn string_from(v: &Vec<char>, lo: usize, hi: usize) -> (out: String)
    requires
        lo <= hi <= v.len(),
    ensures
        out@ == v@.subrange(lo as int, hi as int),
{
    let mut out = String::new();
    let mut i: usize = lo;
    while i < hi
        invariant
            lo <= i <= hi <= v.len(),
            out@ == v@.subrange(lo as int, i as int),
        decreases hi - i,
    {
        out.push(v[i]);
        i += 1;
        assert(v@.subrange(lo as int, i as int) =~= v@.subrange(lo as int, i - 1).push(v@[i - 1]));
    }
    out
}

// ---------------------------------------------------------------------------
// Trimming
// ---------------------------------------------------------------------------

/// `s` without its leading whitespace.
pub open spec fn trim_start(s: Seq<char>) -> Seq<char>
    decreases s.len(),
{
    if s.len() > 0 && is_whitespace(s.first()) {
        trim_start(s.drop_first())
    } else {
        s
    }
}

/// `s` without its trailing whitespace.
pub open spec fn trim_end(s: Seq<char>) -> Seq<char>
    decreases s.len(),
{
    if s.len() > 0 && is_whitespace(s.last()) {
        trim_end(s.drop_last())
    } else {
        s
    }
}

/// `s` without leading and trailing whitespace.
pub open spec fn trim(s: Seq<char>) -> Seq<char> {
    trim_end(trim_start(s))
}

/// Skipping a run of whitespace that ends at the first other character (or at
/// the end) is trimming the start.
pub proof fn lemma_trim_start_is_skip(s: Seq<char>, n: int)
    requires
        0 <= n <= s.len(),
        forall|i: int| 0 <= i < n ==> is_whitespace(#[trigger] s[i]),
        n < s.len() ==> !is_whitespace(s[n]),
    ensures
        trim_start(s) == s.skip(n),
    decreases n,
{
    if n == 0 {
        assert(s.skip(0) =~= s);
    } else {
        let t = s.drop_first();
        assert forall|i: int| 0 <= i < n - 1 implies is_whitespace(#[trigger] t[i]) by {
            assert(t[i] == s[i + 1]);
        }
        lemma_trim_start_is_skip(t, n - 1);
        assert(t.skip(n - 1) =~= s.skip(n));
    }
}

/// Cutting a run of whitespace that begins after the last other character (or
/// at the start) is trimming the end.
pub proof fn lemma_trim_end_is_take(s: Seq<char>, n: int)
    requires
        0 <= n <= s.len(),
        forall|i: int| n <= i < s.len() ==> is_whitespace(#[trigger] s[i]),
        0 < n ==> !is_whitespace(s[n - 1]),
    ensures
        trim_end(s) == s.take(n),
    decreases s.len() - n,
{
    if n == s.len() {
        assert(s.take(n) =~= s);
    } else {
        let t = s.drop_last();
        lemma_trim_end_is_take(t, n);
        assert(t.take(n) =~= s.take(n));
    }
}

/// Trimming leaves a text that neither starts nor ends with whitespace, and
/// that is a piece of the text.
pub proof fn lemma_trim_bounds(s: Seq<char>) -> (r: (int, int))
    ensures
        0 <= r.0 <= r.1 <= s.len(),
        trim(s) == s.subrange(r.0, r.1),
        forall|i: int| 0 <= i < r.0 ==> is_whitespace(#[trigger] s[i]),
        forall|i: int| r.1 <= i < s.len() ==> is_whitespace(#[trigger] s[i]),
        r.0 < r.1 ==> !is_whitespace(s[r.0]) && !is_whitespace(s[r.1 - 1]),
        r.0 == r.1 ==> r.0 == s.len(),
{
    let lo = first_non_whitespace(s, 0);
    lemma_first_non_whitespace(s, 0);
    lemma_trim_start_is_skip(s, lo);
    let t = s.skip(lo);
    let hi_rel = last_non_whitespace(t, t.len() as int);
    lemma_last_non_whitespace(t, t.len() as int);
    lemma_trim_end_is_take(t, hi_rel);
    assert(t.take(hi_rel) =~= s.subrange(lo, lo + hi_rel));
    assert forall|i: int| lo + hi_rel <= i < s.len() implies is_whitespace(#[trigger] s[i]) by {
        assert(t[i - lo] == s[i]);
    }
    if hi_rel > 0 {
        assert(t[hi_rel - 1] == s[lo + hi_rel - 1]);
        assert(t[0] == s[lo]);
    } else {
        if lo < s.len() {
            assert(t[0] == s[lo]);
            assert(is_whitespace(t[0]));
        }
    }
    (lo, lo + hi_rel)
}

/// The first index at or after `from` that holds no whitespace, or the length.
pub open spec fn first_non_whitespace(s: Seq<char>, from: int) -> int
    decreases s.len() - from,
{
    if 0 <= from < s.len() && is_whitespace(s[from]) {
        first_non_whitespace(s, from + 1)
    } else {
        from
    }
}

/// One past the last index before `to` that holds no whitespace, or zero.
pub open spec fn last_non_whitespace(s: Seq<char>, to: int) -> int
    decreases to,
{
    if 0 < to <= s.len() && is_whitespace(s[to - 1]) {
        last_non_whitespace(s, to - 1)
    } else {
        to
    }
}

/// Between `from` and the first index without whitespace stands only
/// whitespace.
pub proof fn lemma_first_non_whitespace(s: Seq<char>, from: int)
    requires
        0 <= from <= s.len(),
    ensures
        from <= first_non_whitespace(s, from) <= s.len(),
        forall|i: int| from <= i < first_non_whitespace(s, from) ==> is_whitespace(#[trigger] s[i]),
        first_non_whitespace(s, from) < s.len() ==> !is_whitespace(
            s[first_non_whitespace(s, from)],
        ),
    decreases s.len() - from,
{
    if from < s.len() && is_whitespace(s[from]) {
        lemma_first_non_whitespace(s, from + 1);
    }
}

/// Between the last index without whitespace and `to` stands only
/// whitespace.
pub proof fn lemma_last_non_whitespace(s: Seq<char>, to: int)
    requires
        0 <= to <= s.len(),
    ensures
        0 <= last_non_whitespace(s, to) <= to,
        forall|i: int| last_non_whitespace(s, to) <= i < to ==> is_whitespace(#[trigger] s[i]),
        0 < last_non_whitespace(s, to) ==> !is_whitespace(s[last_non_whitespace(s, to) - 1]),
    decreases to,
{
    if 0 < to && is_whitespace(s[to - 1]) {
        lemma_last_non_whitespace(s, to - 1);
    }
}

/// The bounds of `v[lo..hi]` once trimmed.
pub fn trim_bounds(v: &Vec<char>, lo: usize, hi: usize) -> (r: (usize, usize))
    requires
        lo <= hi <= v.len(),
    ensures
        lo <= r.0 <= r.1 <= hi,
        v@.subrange(r.0 as int, r.1 as int) == trim(v@.subrange(lo as int, hi as int)),
{
    let ghost s = v@.subrange(lo as int, hi as int);
    let mut a: usize = lo;
    while a < hi && check_whitespace(v[a])
        invariant
            lo <= a <= hi <= v.len(),
            forall|i: int| lo <= i < a ==> is_whitespace(#[trigger] v@[i]),
        decreases hi - a,
    {
        a += 1;
    }
    let mut b: usize = hi;
    while a < b && check_whitespace(v[b - 1])
        invariant
            a <= b <= hi <= v.len(),
            forall|i: int| b <= i < hi ==> is_whitespace(#[trigger] v@[i]),
        decreases b - a,
    {
        b -= 1;
    }
    proof {
        assert forall|i: int| 0 <= i < a - lo implies is_whitespace(#[trigger] s[i]) by {
            assert(s[i] == v@[lo + i]);
        }
        lemma_trim_start_is_skip(s, a - lo);
        let t = s.skip(a - lo);
        assert forall|i: int| b - a <= i < t.len() implies is_whitespace(#[trigger] t[i]) by {
            assert(t[i] == v@[a + i]);
        }
        if b > a {
            assert(t[b - a - 1] == v@[b - 1]);
        }
        lemma_trim_end_is_take(t, b - a);
        assert(t.take(b - a) =~= v@.subrange(a as int, b as int));
    }
    (a, b)
}

// ---------------------------------------------------------------------------
// Searching
// ---------------------------------------------------------------------------

/// `pat` stands in `s` at index `i`.
pub open spec fn occurs_at(s: Seq<char>, pat: Seq<char>, i: int) -> bool {
    &&& 0 <= i
    &&& i + pat.len() <= s.len()
    &&& s.subrange(i, i + pat.len()) == pat
}

/// `pat` stands in `s` at index `i` and nowhere before.
pub open spec fn is_first_occurrence(s: Seq<char>, pat: Seq<char>, i: int) -> bool {
    &&& occurs_at(s, pat, i)
    &&& forall|j: int| 0 <= j < i ==> !occurs_at(s, pat, j)
}

/// `pat` stands somewhere in `s`.
pub open spec fn contains_text(s: Seq<char>, pat: Seq<char>) -> bool {
    exists|i: int| occurs_at(s, pat, i)
}

/// The index of the first occurrence of `pat` in `s`, if there is one.
pub open spec fn find(s: Seq<char>, pat: Seq<char>) -> Option<int> {
    if exists|i: int| is_first_occurrence(s, pat, i) {
        Some(choose|i: int| is_first_occurrence(s, pat, i))
    } else {
        None
    }
}

/// `s` begins with `pat`.
pub open spec fn starts_with(s: Seq<char>, pat: Seq<char>) -> bool {
    occurs_at(s, pat, 0)
}

/// `s` ends with `pat`.
pub open spec fn ends_with(s: Seq<char>, pat: Seq<char>) -> bool {
    occurs_at(s, pat, s.len() - pat.len())
}

/// A first occurrence is the one that `find` reports.
pub proof fn lemma_find_is(s: Seq<char>, pat: Seq<char>, i: int)
    requires
        is_first_occurrence(s, pat, i),
    ensures
        find(s, pat) == Some(i),
{
    let j = choose|j: int| is_first_occurrence(s, pat, j);
    if j < i {
        assert(!occurs_at(s, pat, j));
    } else if i < j {
        assert(!occurs_at(s, pat, i));
    }
}

/// Where `pat` stands nowhere, `find` reports nothing.
pub proof fn lemma_find_none(s: Seq<char>, pat: Seq<char>)
    requires
        forall|i: int| !occurs_at(s, pat, i),
    ensures
        find(s, pat) is None,
        !contains_text(s, pat),
{
}

/// `find` reports something exactly where `pat` stands somewhere, and then a
/// first occurrence.
pub proof fn lemma_find_contains(s: Seq<char>, pat: Seq<char>)
    ensures
        find(s, pat) is Some <==> contains_text(s, pat),
        find(s, pat) matches Some(i) ==> is_first_occurrence(s, pat, i),
{
    if contains_text(s, pat) {
        let k = choose|k: int| occurs_at(s, pat, k);
        let f = least_occurrence(s, pat, 0, k);
        lemma_least_occurrence(s, pat, 0, k);
        lemma_find_is(s, pat, f);
    }
    if find(s, pat) is Some {
        let i = choose|i: int| is_first_occurrence(s, pat, i);
        assert(occurs_at(s, pat, i));
    }
}

/// The least index in `from..=k` at which `pat` stands, given that it stands
/// at `k`.
pub open spec fn least_occurrence(s: Seq<char>, pat: Seq<char>, from: int, k: int) -> int
    decreases k - from,
{
    if from < k && !occurs_at(s, pat, from) {
        least_occurrence(s, pat, from + 1, k)
    } else {
        from
    }
}

/// The least occurrence is a first occurrence.
pub proof fn lemma_least_occurrence(s: Seq<char>, pat: Seq<char>, from: int, k: int)
    requires
        0 <= from <= k,
        occurs_at(s, pat, k),
        forall|j: int| 0 <= j < from ==> !occurs_at(s, pat, j),
    ensures
        is_first_occurrence(s, pat, least_occurrence(s, pat, from, k)),
    decreases k - from,
{
    if from < k && !occurs_at(s, pat, from) {
        lemma_least_occurrence(s, pat, from + 1, k);
    }
}

/// Whether `pat` stands in `v` at index `i`, within `v[..hi]`.
pub fn matches_at(v: &Vec<char>, i: usize, hi: usize, pat: &Vec<char>) -> (r: bool)
    requires
        i <= hi <= v.len(),
    ensures
        r == occurs_at(v@.subrange(0, hi as int), pat@, i as int),
{
    let ghost s = v@.subrange(0, hi as int);
    if pat.len() > hi - i {
        return false;
    }
    let mut k: usize = 0;
    while k < pat.len()
        invariant
            i <= hi <= v.len(),
            pat.len() <= hi - i,
            k <= pat.len(),
            s == v@.subrange(0, hi as int),
            forall|j: int| 0 <= j < k ==> v@[i + j] == pat@[j],
        decreases pat.len() - k,
    {
        if v[i + k] != pat[k] {
            proof {
                assert(s.subrange(i as int, i + pat.len())[k as int] == v@[i + k]);
            }
            return false;
        }
        k += 1;
    }
    proof {
        assert(s.subrange(i as int, i + pat.len()) =~= pat@);
    }
    true
}

/// The first index in `lo..hi` at which `pat` stands within `v[lo..hi]`.
pub fn find_in(v: &Vec<char>, lo: usize, hi: usize, pat: &Vec<char>) -> (r: Option<usize>)
    requires
        lo <= hi <= v.len(),
    ensures
        match r {
            Some(p) => lo <= p && p + pat.len() <= hi && find(
                v@.subrange(lo as int, hi as int),
                pat@,
            ) == Some(p - lo),
            None => find(v@.subrange(lo as int, hi as int), pat@) is None,
        },
{
    let ghost s = v@.subrange(lo as int, hi as int);
    if pat.len() > hi - lo {
        proof {
            lemma_find_none(s, pat@);
        }
        return None;
    }
    let last: usize = hi - pat.len();
    let mut i: usize = lo;
    loop
        invariant
            lo <= i <= last,
            last + pat.len() == hi,
            hi <= v.len(),
            s == v@.subrange(lo as int, hi as int),
            forall|j: int| 0 <= j < i - lo ==> !occurs_at(s, pat@, j),
        decreases last - i,
    {
        let m = matches_at(v, i, hi, pat);
        proof {
            lemma_occurs_at_shift(v@, lo as int, hi as int, pat@, i as int);
        }
        if m {
            proof {
                lemma_find_is(s, pat@, i - lo);
            }
            return Some(i);
        }
        if i == last {
            proof {
                lemma_find_none(s, pat@);
            }
            return None;
        }
        i += 1;
    }
}

/// An occurrence within `v[lo..hi]` is an occurrence within `v[..hi]`, moved
/// by `lo`.
pub proof fn lemma_occurs_at_shift(v: Seq<char>, lo: int, hi: int, pat: Seq<char>, i: int)
    requires
        0 <= lo <= i <= hi <= v.len(),
    ensures
        occurs_at(v.subrange(0, hi), pat, i) == occurs_at(v.subrange(lo, hi), pat, i - lo),
{
    if i + pat.len() <= hi {
        assert(v.subrange(0, hi).subrange(i, i + pat.len()) =~= v.subrange(lo, hi).subrange(
            i - lo,
            i - lo + pat.len(),
        ));
    }
}

/// Every character of `w` is whitespace.
pub open spec fn all_whitespace(w: Seq<char>) -> bool {
    forall|i: int| 0 <= i < w.len() ==> is_whitespace(#[trigger] w[i])
}

/// Whitespace around a text that neither starts nor ends with whitespace is
/// what trimming removes.
pub proof fn lemma_trim_padded(before: Seq<char>, x: Seq<char>, after: Seq<char>)
    requires
        all_whitespace(before),
        all_whitespace(after),
        x.len() > 0 ==> !is_whitespace(x.first()) && !is_whitespace(x.last()),
    ensures
        trim(before + x + after) == x,
{
    let s = before + x + after;
    let n = before.len() as int;
    if x.len() == 0 {
        assert forall|i: int| 0 <= i < s.len() implies is_whitespace(#[trigger] s[i]) by {
            if i < n {
                assert(s[i] == before[i]);
            } else {
                assert(s[i] == after[i - n]);
            }
        }
        lemma_trim_start_is_skip(s, s.len() as int);
        assert(s.skip(s.len() as int) =~= x);
    } else {
        assert forall|i: int| 0 <= i < n implies is_whitespace(#[trigger] s[i]) by {
            assert(s[i] == before[i]);
        }
        assert(s[n] == x.first());
        lemma_trim_start_is_skip(s, n);
        let t = s.skip(n);
        assert(t =~= x + after);
        assert forall|i: int| x.len() <= i < t.len() implies is_whitespace(#[trigger] t[i]) by {
            assert(t[i] == after[i - x.len()]);
        }
        assert(t[x.len() - 1] == x.last());
        lemma_trim_end_is_take(t, x.len() as int);
        assert(t.take(x.len() as int) =~= x);
    }
}

/// An occurrence in a piece of a text is an occurrence in the text.
pub proof fn lemma_occurs_in_piece(s: Seq<char>, lo: int, hi: int, pat: Seq<char>, i: int)
    requires
        0 <= lo <= hi <= s.len(),
        occurs_at(s.subrange(lo, hi), pat, i),
    ensures
        occurs_at(s, pat, lo + i),
        contains_text(s, pat),
{
    assert(s.subrange(lo, hi).subrange(i, i + pat.len()) =~= s.subrange(
        lo + i,
        lo + i + pat.len(),
    ));
    assert(occurs_at(s, pat, lo + i));
}

// ---------------------------------------------------------------------------
// Splitting
// ---------------------------------------------------------------------------

/// The index of the first `sep` in `s`, or the length of `s` where there is
/// none.
pub open spec fn first_index_of(s: Seq<char>, sep: char) -> int
    decreases s.len(),
{
    if s.len() == 0 || s.first() == sep {
        0
    } else {
        1 + first_index_of(s.drop_first(), sep)
    }
}

/// No `sep` stands before the first index of `sep`, and one stands there
/// unless it is the length.
pub proof fn lemma_first_index_of(s: Seq<char>, sep: char)
    ensures
        0 <= first_index_of(s, sep) <= s.len(),
        forall|i: int| 0 <= i < first_index_of(s, sep) ==> #[trigger] s[i] != sep,
        first_index_of(s, sep) < s.len() ==> s[first_index_of(s, sep)] == sep,
    decreases s.len(),
{
    if s.len() == 0 || s.first() == sep {
    } else {
        let t = s.drop_first();
        lemma_first_index_of(t, sep);
        assert forall|i: int| 0 <= i < first_index_of(s, sep) implies #[trigger] s[i] != sep by {
            if i > 0 {
                assert(s[i] == t[i - 1]);
            }
        }
    }
}

/// An index before which no `sep` stands, and which holds one or is the
/// length, is the first index of `sep`.
pub proof fn lemma_first_index_of_is(s: Seq<char>, sep: char, n: int)
    requires
        0 <= n <= s.len(),
        forall|i: int| 0 <= i < n ==> #[trigger] s[i] != sep,
        n < s.len() ==> s[n] == sep,
    ensures
        first_index_of(s, sep) == n,
{
    lemma_first_index_of(s, sep);
    let f = first_index_of(s, sep);
    if f < n {
        assert(s[f] != sep);
    } else if n < f {
        assert(s[n] != sep);
    }
}

/// The pieces of `s` between occurrences of `sep`; a text without `sep` is
/// one piece, and so is the empty text.
pub open spec fn split(s: Seq<char>, sep: char) -> Seq<Seq<char>>
    decreases s.len(),
{
    let n = first_index_of(s, sep);
    if 0 <= n < s.len() {
        seq![s.take(n)] + split(s.skip(n + 1), sep)
    } else {
        seq![s]
    }
}

/// A line without a carriage return at its end.
pub open spec fn strip_carriage_return(line: Seq<char>) -> Seq<char> {
    if line.len() > 0 && line.last() == '\r' {
        line.drop_last()
    } else {
        line
    }
}

/// The lines of a text. A line ends at a line feed; the feed, and a carriage
/// return just before it, belong to no line. What follows the last feed is a
/// line if it is not empty.
pub open spec fn lines(s: Seq<char>) -> Seq<Seq<char>>
    decreases s.len(),
{
    if s.len() == 0 {
        Seq::empty()
    } else {
        let n = first_index_of(s, '\n');
        if 0 <= n < s.len() {
            seq![strip_carriage_return(s.take(n))] + lines(s.skip(n + 1))
        } else {
            seq![s]
        }
    }
}

/// A piece of a vector of characters: `start..end`.
#[derive(Clone, Copy, Debug)]
pub struct Span {
    pub start: usize,
    pub end: usize,
}

impl Span {
    /// The span lies within `lo..hi`.
    pub open spec fn within(&self, lo: int, hi: int) -> bool {
        lo <= self.start <= self.end <= hi
    }

    /// The characters that the span cuts out of `v`.
    pub open spec fn of(&self, v: Seq<char>) -> Seq<char> {
        v.subrange(self.start as int, self.end as int)
    }
}

/// The texts that a sequence of spans cuts out of `v`.
pub open spec fn spans_of(spans: Seq<Span>, v: Seq<char>) -> Seq<Seq<char>> {
    Seq::new(spans.len(), |i: int| spans[i].of(v))
}

/// The first index in `lo..hi` that holds `sep`, or `hi`.
pub fn index_of_char(v: &Vec<char>, lo: usize, hi: usize, sep: char) -> (r: usize)
    requires
        lo <= hi <= v.len(),
    ensures
        lo <= r <= hi,
        r - lo == first_index_of(v@.subrange(lo as int, hi as int), sep),
{
    let ghost s = v@.subrange(lo as int, hi as int);
    let mut i: usize = lo;
    while i < hi && v[i] != sep
        invariant
            lo <= i <= hi <= v.len(),
            s == v@.subrange(lo as int, hi as int),
            forall|k: int| 0 <= k < i - lo ==> #[trigger] s[k] != sep,
        decreases hi - i,
    {
        i += 1;
    }
    proof {
        if i < hi {
            assert(s[i - lo] == v@[i as int]);
        }
        lemma_first_index_of_is(s, sep, i - lo);
    }
    i
}

/// Splits `v[lo..hi]` at every `sep`.
pub fn split_spans(v: &Vec<char>, lo: usize, hi: usize, sep: char) -> (out: Vec<Span>)
    requires
        lo <= hi <= v.len(),
    ensures
        spans_of(out@, v@) == split(v@.subrange(lo as int, hi as int), sep),
        forall|i: int| 0 <= i < out.len() ==> (#[trigger] out[i]).within(lo as int, hi as int),
        out.len() >= 1,
{
    let mut out: Vec<Span> = Vec::new();
    let mut pos: usize = lo;
    loop
        invariant
            lo <= pos <= hi <= v.len(),
            split(v@.subrange(lo as int, hi as int), sep) == spans_of(out@, v@) + split(
                v@.subrange(pos as int, hi as int),
                sep,
            ),
            forall|i: int| 0 <= i < out.len() ==> (#[trigger] out[i]).within(lo as int, hi as int),
        decreases hi - pos,
    {
        let ghost s = v@.subrange(pos as int, hi as int);
        let ghost before = spans_of(out@, v@);
        let end = index_of_char(v, pos, hi, sep);
        let span = Span { start: pos, end };
        out.push(span);
        proof {
            assert(spans_of(out@, v@) =~= before + seq![span.of(v@)]);
            assert(s.take(end - pos) =~= span.of(v@));
        }
        if end == hi {
            proof {
                assert(s =~= span.of(v@));
                assert(split(s, sep) =~= seq![s]);
            }
            return out;
        }
        proof {
            assert(s.skip(end - pos + 1) =~= v@.subrange(end + 1, hi as int));
            assert(split(s, sep) =~= seq![s.take(end - pos)] + split(s.skip(end - pos + 1), sep));
        }
        pos = end + 1;
    }
}

/// The lines of `v`, as spans.
pub fn line_spans(v: &Vec<char>) -> (out: Vec<Span>)
    ensures
        spans_of(out@, v@) == lines(v@),
        forall|i: int| 0 <= i < out.len() ==> (#[trigger] out[i]).within(0, v.len() as int),
{
    let mut out: Vec<Span> = Vec::new();
    let hi: usize = v.len();
    let mut pos: usize = 0;
    proof {
        assert(v@.subrange(0, hi as int) =~= v@);
        assert(spans_of(out@, v@) =~= Seq::<Seq<char>>::empty());
    }
    while pos < hi
        invariant
            pos <= hi == v.len(),
            lines(v@) == spans_of(out@, v@) + lines(v@.subrange(pos as int, hi as int)),
            forall|i: int| 0 <= i < out.len() ==> (#[trigger] out[i]).within(0, hi as int),
        decreases hi - pos,
    {
        let ghost s = v@.subrange(pos as int, hi as int);
        let ghost before = spans_of(out@, v@);
        let end = index_of_char(v, pos, hi, '\n');
        if end == hi {
            let span = Span { start: pos, end };
            out.push(span);
            proof {
                assert(spans_of(out@, v@) =~= before + seq![span.of(v@)]);
                assert(s =~= span.of(v@));
                assert(lines(s) =~= seq![s]);
                assert(lines(v@.subrange(hi as int, hi as int)) =~= Seq::<Seq<char>>::empty());
            }
            pos = hi;
        } else {
            let stop: usize = if end > pos && v[end - 1] == '\r' {
                end - 1
            } else {
                end
            };
            let span = Span { start: pos, end: stop };
            out.push(span);
            proof {
                let raw = s.take(end - pos);
                assert(raw =~= v@.subrange(pos as int, end as int));
                if raw.len() > 0 {
                    assert(raw.last() == v@[end - 1]);
                }
                assert(strip_carriage_return(raw) =~= span.of(v@));
                assert(spans_of(out@, v@) =~= before + seq![span.of(v@)]);
                assert(s.skip(end - pos + 1) =~= v@.subrange(end + 1, hi as int));
                assert(lines(s) =~= seq![strip_carriage_return(raw)] + lines(
                    s.skip(end - pos + 1),
                ));
            }
            pos = end + 1;
        }
    }
    proof {
        assert(lines(v@.subrange(pos as int, hi as int)) =~= Seq::<Seq<char>>::empty());
    }
    out
}

// ---------------------------------------------------------------------------
// Stripping one character, and lengths in bytes
// ---------------------------------------------------------------------------

/// `s` without the run of `c` at its start.
pub open spec fn strip_start(s: Seq<char>, c: char) -> Seq<char>
    decreases s.len(),
{
    if s.len() > 0 && s.first() == c {
        strip_start(s.drop_first(), c)
    } else {
        s
    }
}

/// `s` without the run of `c` at its end.
pub open spec fn strip_end(s: Seq<char>, c: char) -> Seq<char>
    decreases s.len(),
{
    if s.len() > 0 && s.last() == c {
        strip_end(s.drop_last(), c)
    } else {
        s
    }
}

/// `s` without the runs of `c` at its start and at its end.
pub open spec fn strip(s: Seq<char>, c: char) -> Seq<char> {
    strip_end(strip_start(s, c), c)
}

/// Skipping a run of `c` that ends at the first other character (or at the
/// end) is stripping the start.
pub proof fn lemma_strip_start_is_skip(s: Seq<char>, c: char, n: int)
    requires
        0 <= n <= s.len(),
        forall|i: int| 0 <= i < n ==> #[trigger] s[i] == c,
        n < s.len() ==> s[n] != c,
    ensures
        strip_start(s, c) == s.skip(n),
    decreases n,
{
    if n == 0 {
        assert(s.skip(0) =~= s);
    } else {
        let t = s.drop_first();
        assert forall|i: int| 0 <= i < n - 1 implies #[trigger] t[i] == c by {
            assert(t[i] == s[i + 1]);
        }
        lemma_strip_start_is_skip(t, c, n - 1);
        assert(t.skip(n - 1) =~= s.skip(n));
    }
}

/// Cutting a run of `c` that begins after the last other character (or at
/// the start) is stripping the end.
pub proof fn lemma_strip_end_is_take(s: Seq<char>, c: char, n: int)
    requires
        0 <= n <= s.len(),
        forall|i: int| n <= i < s.len() ==> #[trigger] s[i] == c,
        0 < n ==> s[n - 1] != c,
    ensures
        strip_end(s, c) == s.take(n),
    decreases s.len() - n,
{
    if n == s.len() {
        assert(s.take(n) =~= s);
    } else {
        let t = s.drop_last();
        lemma_strip_end_is_take(t, c, n);
        assert(t.take(n) =~= s.take(n));
    }
}

/// The bounds of `v[lo..hi]` without the run of `c` at its start.
pub fn strip_start_bounds(v: &Vec<char>, lo: usize, hi: usize, c: char) -> (a: usize)
    requires
        lo <= hi <= v.len(),
    ensures
        lo <= a <= hi,
        v@.subrange(a as int, hi as int) == strip_start(v@.subrange(lo as int, hi as int), c),
{
    let ghost s = v@.subrange(lo as int, hi as int);
    let mut a: usize = lo;
    while a < hi && v[a] == c
        invariant
            lo <= a <= hi <= v.len(),
            forall|i: int| lo <= i < a ==> #[trigger] v@[i] == c,
        decreases hi - a,
    {
        a += 1;
    }
    proof {
        assert forall|i: int| 0 <= i < a - lo implies #[trigger] s[i] == c by {
            assert(s[i] == v@[lo + i]);
        }
        lemma_strip_start_is_skip(s, c, a - lo);
        assert(s.skip(a - lo) =~= v@.subrange(a as int, hi as int));
    }
    a
}

/// The bounds of `v[lo..hi]` without the run of `c` at its end.
pub fn strip_end_bounds(v: &Vec<char>, lo: usize, hi: usize, c: char) -> (b: usize)
    requires
        lo <= hi <= v.len(),
    ensures
        lo <= b <= hi,
        v@.subrange(lo as int, b as int) == strip_end(v@.subrange(lo as int, hi as int), c),
{
    let ghost s = v@.subrange(lo as int, hi as int);
    let mut b: usize = hi;
    while lo < b && v[b - 1] == c
        invariant
            lo <= b <= hi <= v.len(),
            forall|i: int| b <= i < hi ==> #[trigger] v@[i] == c,
        decreases b - lo,
    {
        b -= 1;
    }
    proof {
        assert forall|i: int| b - lo <= i < s.len() implies #[trigger] s[i] == c by {
            assert(s[i] == v@[lo + i]);
        }
        if b > lo {
            assert(s[b - lo - 1] == v@[b - 1]);
        }
        lemma_strip_end_is_take(s, c, b - lo);
        assert(s.take(b - lo) =~= v@.subrange(lo as int, b as int));
    }
    b
}

/// The bounds of `v[lo..hi]` without the runs of `c` at its start and end.
pub fn strip_bounds(v: &Vec<char>, lo: usize, hi: usize, c: char) -> (r: (usize, usize))
    requires
        lo <= hi <= v.len(),
    ensures
        lo <= r.0 <= r.1 <= hi,
        v@.subrange(r.0 as int, r.1 as int) == strip(v@.subrange(lo as int, hi as int), c),
{
    let a = strip_start_bounds(v, lo, hi, c);
    let b = strip_end_bounds(v, a, hi, c);
    (a, b)
}

/// The number of bytes that a character takes in UTF-8.
pub open spec fn utf8_len(c: char) -> nat {
    let u = c as u32;
    if u < 0x80 {
        1
    } else if u < 0x800 {
        2
    } else if u < 0x10000 {
        3
    } else {
        4
    }
}

/// The number of bytes that a text takes in UTF-8.
pub open spec fn byte_len(s: Seq<char>) -> nat
    decreases s.len(),
{
    if s.len() == 0 {
        0
    } else {
        byte_len(s.drop_last()) + utf8_len(s.last())
    }
}

/// The number of characters of whitespace at the start of `s`.
pub open spec fn leading_whitespace(s: Seq<char>) -> int {
    first_non_whitespace(s, 0)
}

/// The bounds of `v[lo..hi]` without its leading whitespace, and the number
/// of bytes that the whitespace takes.
pub fn trim_start_bounds(v: &Vec<char>, lo: usize, hi: usize) -> (r: (usize, u128))
    requires
        lo <= hi <= v.len(),
    ensures
        lo <= r.0 <= hi,
        v@.subrange(r.0 as int, hi as int) == trim_start(v@.subrange(lo as int, hi as int)),
        r.0 - lo == leading_whitespace(v@.subrange(lo as int, hi as int)),
        r.1 == byte_len(v@.subrange(lo as int, r.0 as int)),
{
    let ghost s = v@.subrange(lo as int, hi as int);
    let mut a: usize = lo;
    let mut bytes: u128 = 0;
    proof {
        assert(v@.subrange(lo as int, lo as int) =~= Seq::<char>::empty());
    }
    while a < hi && check_whitespace(v[a])
        invariant
            lo <= a <= hi <= v.len(),
            forall|i: int| lo <= i < a ==> is_whitespace(#[trigger] v@[i]),
            bytes == byte_len(v@.subrange(lo as int, a as int)),
            bytes <= 4 * (a - lo),
        decreases hi - a,
    {
        let u: u32 = v[a] as u32;
        let width: u128 = if u < 0x80 {
            1
        } else if u < 0x800 {
            2
        } else if u < 0x10000 {
            3
        } else {
            4
        };
        proof {
            let longer = v@.subrange(lo as int, a + 1);
            assert(longer.drop_last() =~= v@.subrange(lo as int, a as int));
            assert(longer.last() == v@[a as int]);
        }
        bytes = bytes + width;
        a += 1;
    }
    proof {
        assert forall|i: int| 0 <= i < a - lo implies is_whitespace(#[trigger] s[i]) by {
            assert(s[i] == v@[lo + i]);
        }
        if a < hi {
            assert(s[a - lo] == v@[a as int]);
        }
        lemma_trim_start_is_skip(s, a - lo);
        assert(s.skip(a - lo) =~= v@.subrange(a as int, hi as int));
        lemma_first_non_whitespace_is(s, 0, a - lo);
    }
    (a, bytes)
}

/// An index before which only whitespace stands since `from`, and which holds
/// none or is the length, is the first index without whitespace.
pub proof fn lemma_first_non_whitespace_is(s: Seq<char>, from: int, n: int)
    requires
        0 <= from <= n <= s.len(),
        forall|i: int| from <= i < n ==> is_whitespace(#[trigger] s[i]),
        n < s.len() ==> !is_whitespace(s[n]),
    ensures
        first_non_whitespace(s, from) == n,
    decreases n - from,
{
    if from < n {
        lemma_first_non_whitespace_is(s, from + 1, n);
    }
}

// ---------------------------------------------------------------------------
// Stripping and replacing a text
// ---------------------------------------------------------------------------

/// `s` without the repetitions of `suffix` at its end. An empty `suffix`
/// strips nothing.
pub open spec fn strip_suffix_all(s: Seq<char>, suffix: Seq<char>) -> Seq<char>
    decreases s.len(),
{
    if suffix.len() > 0 && ends_with(s, suffix) {
        strip_suffix_all(s.take(s.len() - suffix.len()), suffix)
    } else {
        s
    }
}

/// `s` without the repetitions of `prefix` at its start. An empty `prefix`
/// strips nothing.
pub open spec fn strip_prefix_all(s: Seq<char>, prefix: Seq<char>) -> Seq<char>
    decreases s.len(),
{
    if prefix.len() > 0 && starts_with(s, prefix) {
        strip_prefix_all(s.skip(prefix.len() as int), prefix)
    } else {
        s
    }
}

/// `s` with every occurrence of `from` replaced by `to`, from left to right;
/// occurrences do not overlap. An empty `from` replaces nothing.
pub open spec fn replace_all(s: Seq<char>, from: Seq<char>, to: Seq<char>) -> Seq<char>
    decreases s.len(),
{
    if from.len() == 0 || s.len() < from.len() {
        s
    } else if starts_with(s, from) {
        to + replace_all(s.skip(from.len() as int), from, to)
    } else {
        seq![s.first()] + replace_all(s.drop_first(), from, to)
    }
}

/// The end of `v[lo..hi]` without the repetitions of `suffix` at its end.
pub fn strip_suffix_bounds(v: &Vec<char>, lo: usize, hi: usize, suffix: &Vec<char>) -> (b: usize)
    requires
        lo <= hi <= v.len(),
    ensures
        lo <= b <= hi,
        v@.subrange(lo as int, b as int) == strip_suffix_all(
            v@.subrange(lo as int, hi as int),
            suffix@,
        ),
{
    let m = suffix.len();
    if m == 0 {
        return hi;
    }
    let mut b: usize = hi;
    while b - lo >= m
        invariant
            lo <= b <= hi <= v.len(),
            m == suffix.len(),
            m > 0,
            strip_suffix_all(v@.subrange(lo as int, b as int), suffix@) == strip_suffix_all(
                v@.subrange(lo as int, hi as int),
                suffix@,
            ),
        decreases b - lo,
    {
        let found = matches_at(v, b - m, b, suffix);
        proof {
            lemma_occurs_at_shift(v@, lo as int, b as int, suffix@, b - m);
        }
        if !found {
            return b;
        }
        proof {
            assert(v@.subrange(lo as int, b as int).take(b - lo - m) =~= v@.subrange(
                lo as int,
                b - m,
            ));
        }
        b -= m;
    }
    b
}

/// The start of `v[lo..hi]` without the repetitions of `prefix` at its start.
pub fn strip_prefix_bounds(v: &Vec<char>, lo: usize, hi: usize, prefix: &Vec<char>) -> (a: usize)
    requires
        lo <= hi <= v.len(),
    ensures
        lo <= a <= hi,
        v@.subrange(a as int, hi as int) == strip_prefix_all(
            v@.subrange(lo as int, hi as int),
            prefix@,
        ),
{
    let m = prefix.len();
    if m == 0 {
        return lo;
    }
    let mut a: usize = lo;
    while hi - a >= m
        invariant
            lo <= a <= hi <= v.len(),
            m == prefix.len(),
            m > 0,
            strip_prefix_all(v@.subrange(a as int, hi as int), prefix@) == strip_prefix_all(
                v@.subrange(lo as int, hi as int),
                prefix@,
            ),
        decreases hi - a,
    {
        let found = matches_at(v, a, hi, prefix);
        proof {
            lemma_occurs_at_shift(v@, a as int, hi as int, prefix@, a as int);
        }
        if !found {
            return a;
        }
        proof {
            assert(v@.subrange(a as int, hi as int).skip(m as int) =~= v@.subrange(
                a + m,
                hi as int,
            ));
        }
        a += m;
    }
    a
}

/// Appends to `out` the text `v[lo..hi]` with every occurrence of `from`
/// replaced by `to`.
pub fn push_replaced(
    out: &mut Vec<char>,
    v: &Vec<char>,
    lo: usize,
    hi: usize,
    from: &Vec<char>,
    to: &Vec<char>,
)
    requires
        lo <= hi <= v.len(),
    ensures
        final(out)@ == old(out)@ + replace_all(v@.subrange(lo as int, hi as int), from@, to@),
{
    let m = from.len();
    let mut i: usize = lo;
    proof {
        assert(out@ =~= old(out)@ + Seq::<char>::empty());
    }
    while i < hi
        invariant
            lo <= i <= hi <= v.len(),
            m == from.len(),
            out@ + replace_all(v@.subrange(i as int, hi as int), from@, to@) == old(out)@
                + replace_all(v@.subrange(lo as int, hi as int), from@, to@),
        decreases hi - i,
    {
        let ghost rest = v@.subrange(i as int, hi as int);
        let ghost before = out@;
        if m == 0 || hi - i < m {
            push_all(out, v, i, hi);
            proof {
                assert(replace_all(rest, from@, to@) == rest);
                assert(v@.subrange(hi as int, hi as int) =~= Seq::<char>::empty());
                assert(out@ + replace_all(v@.subrange(hi as int, hi as int), from@, to@) =~= before
                    + rest);
            }
            i = hi;
        } else {
            let found = matches_at(v, i, hi, from);
            proof {
                lemma_occurs_at_shift(v@, i as int, hi as int, from@, i as int);
            }
            if found {
                push_all(out, to, 0, to.len());
                proof {
                    assert(to@.subrange(0, to.len() as int) =~= to@);
                    assert(rest.skip(m as int) =~= v@.subrange(i + m, hi as int));
                    assert(out@ + replace_all(v@.subrange(i + m, hi as int), from@, to@) =~= before
                        + (to@ + replace_all(rest.skip(m as int), from@, to@)));
                }
                i += m;
            } else {
                out.push(v[i]);
                proof {
                    assert(rest.drop_first() =~= v@.subrange(i + 1, hi as int));
                    assert(rest.first() == v@[i as int]);
                    assert(out@ + replace_all(v@.subrange(i + 1, hi as int), from@, to@) =~= before
                        + (seq![rest.first()] + replace_all(rest.drop_first(), from@, to@)));
                }
                i += 1;
            }
        }
    }
    proof {
        assert(v@.subrange(hi as int, hi as int) =~= Seq::<char>::empty());
        assert(replace_all(Seq::<char>::empty(), from@, to@) =~= Seq::<char>::empty());
        assert(out@ + Seq::<char>::empty() =~= out@);
    }
}

/// Appends `v[lo..hi]` to `out`.
pub fn push_all(out: &mut Vec<char>, v: &Vec<char>, lo: usize, hi: usize)
    requires
        lo <= hi <= v.len(),
    ensures
        final(out)@ == old(out)@ + v@.subrange(lo as int, hi as int),
{
    let mut i: usize = lo;
    proof {
        assert(out@ =~= old(out)@ + v@.subrange(lo as int, lo as int));
    }
    while i < hi
        invariant
            lo <= i <= hi <= v.len(),
            out@ == old(out)@ + v@.subrange(lo as int, i as int),
        decreases hi - i,
    {
        out.push(v[i]);
        i += 1;
        proof {
            assert(out@ =~= old(out)@ + v@.subrange(lo as int, i as int));
        }
    }
}

/// Appends the characters of `s` to `out`.
pub fn push_str(out: &mut Vec<char>, s: &str)
    ensures
        final(out)@ == old(out)@ + s@,
{
    let v = chars_of(s);
    proof {
        assert(v@.subrange(0, v.len() as int) =~= s@);
    }
    push_all(out, &v, 0, v.len());
}

/// The string made of the characters of `v`.
pub fn string_of(v: &Vec<char>) -> (out: String)
    ensures
        out@ == v@,
{
    proof {
        assert(v@.subrange(0, v.len() as int) =~= v@);
    }
    string_from(v, 0, v.len())
}

} // verus!
