//! Character-level helpers shared by the parsers of this crate.
//!
//! Strings are handled as their sequences of `char`s (`s@`). Trimming follows
//! `str::trim`: a character is whitespace when it has the Unicode `White_Space`
//! property, which is what `char::is_whitespace` tests.

use vstd::prelude::*;

verus! {

/// A class of characters that can be stripped from the ends of a string.
#[derive(Clone, Copy, PartialEq, Eq, Debug)]
pub enum CharClass {
    /// Unicode `White_Space`, as `char::is_whitespace` and `str::trim` use it.
    Whitespace,
    /// Only `' '` and `'\t'`.
    SpaceOrTab,
}

/// Unicode `White_Space`: the characters for which `char::is_whitespace` is true.
pub open spec fn is_whitespace(c: char) -> bool {
    ||| c == ' '
    ||| ('\t' <= c && c <= '\r')
    ||| c == '\u{85}'
    ||| c == '\u{a0}'
    ||| c == '\u{1680}'
    ||| ('\u{2000}' <= c && c <= '\u{200a}')
    ||| c == '\u{2028}'
    ||| c == '\u{2029}'
    ||| c == '\u{202f}'
    ||| c == '\u{205f}'
    ||| c == '\u{3000}'
}

/// The text of an optional `String`.
pub open spec fn option_string_view(o: Option<String>) -> Option<Seq<char>> {
    match o {
        Some(s) => Some(s@),
        None => None,
    }
}

pub open spec fn in_class(c: char, class: CharClass) -> bool {
    match class {
        CharClass::Whitespace => is_whitespace(c),
        CharClass::SpaceOrTab => c == ' ' || c == '\t',
    }
}

/// Number of leading characters of `s` that belong to `class`.
pub open spec fn leading_in_class(s: Seq<char>, class: CharClass) -> nat
    decreases s.len(),
{
    if s.len() > 0 && in_class(s[0], class) {
        1 + leading_in_class(s.drop_first(), class)
    } else {
        0
    }
}

/// Number of trailing characters of `s` that belong to `class`.
pub open spec fn trailing_in_class(s: Seq<char>, class: CharClass) -> nat
    decreases s.len(),
{
    if s.len() > 0 && in_class(s.last(), class) {
        1 + trailing_in_class(s.drop_last(), class)
    } else {
        0
    }
}

/// `s` without its leading characters of `class` (`str::trim_start_matches`).
pub open spec fn trim_start_class(s: Seq<char>, class: CharClass) -> Seq<char> {
    s.skip(leading_in_class(s, class) as int)
}

/// `s` without its trailing characters of `class` (`str::trim_end_matches`).
pub open spec fn trim_end_class(s: Seq<char>, class: CharClass) -> Seq<char> {
    s.take(s.len() - trailing_in_class(s, class))
}

/// `str::trim`: `s` without leading and trailing whitespace.
pub open spec fn trimmed(s: Seq<char>) -> Seq<char> {
    trim_end_class(trim_start_class(s, CharClass::Whitespace), CharClass::Whitespace)
}

/// `s` begins with `prefix`.
pub open spec fn starts_with(s: Seq<char>, prefix: Seq<char>) -> bool {
    prefix.len() <= s.len() && s.take(prefix.len() as int) == prefix
}

/// Position of the first `c` in `s`, if any (`str::find` with a `char`, counted in chars).
pub open spec fn index_of(s: Seq<char>, c: char) -> Option<nat>
    decreases s.len(),
{
    if s.len() == 0 {
        None
    } else if s[0] == c {
        Some(0)
    } else {
        match index_of(s.drop_first(), c) {
            Some(i) => Some(i + 1),
            None => None,
        }
    }
}

pub proof fn lemma_leading_bounds(s: Seq<char>, class: CharClass)
    ensures
        leading_in_class(s, class) <= s.len(),
        forall|j: int| 0 <= j < leading_in_class(s, class) ==> in_class(#[trigger] s[j], class),
        leading_in_class(s, class) < s.len() ==> !in_class(s[leading_in_class(s, class) as int], class),
    decreases s.len(),
{
    if s.len() > 0 && in_class(s[0], class) {
        lemma_leading_bounds(s.drop_first(), class);
        assert forall|j: int| 0 <= j < leading_in_class(s, class) implies in_class(
            #[trigger] s[j],
            class,
        ) by {
            if j > 0 {
                assert(s[j] == s.drop_first()[j - 1]);
            }
        }
    }
}

/// A position `i` that closes a run of `class` characters from the start is the leading count.
pub proof fn lemma_leading_unique(s: Seq<char>, class: CharClass, i: int)
    requires
        0 <= i <= s.len(),
        forall|j: int| 0 <= j < i ==> in_class(#[trigger] s[j], class),
        i < s.len() ==> !in_class(s[i], class),
    ensures
        leading_in_class(s, class) == i,
    decreases s.len(),
{
    if i > 0 {
        assert(in_class(s[0], class));
        assert forall|j: int| 0 <= j < i - 1 implies in_class(#[trigger] s.drop_first()[j], class) by {
            assert(s.drop_first()[j] == s[j + 1]);
        }
        lemma_leading_unique(s.drop_first(), class, i - 1);
    }
}

pub proof fn lemma_trailing_bounds(s: Seq<char>, class: CharClass)
    ensures
        trailing_in_class(s, class) <= s.len(),
        forall|j: int|
            s.len() - trailing_in_class(s, class) <= j < s.len() ==> in_class(#[trigger] s[j], class),
        trailing_in_class(s, class) < s.len() ==> !in_class(
            s[s.len() - trailing_in_class(s, class) - 1],
            class,
        ),
    decreases s.len(),
{
    if s.len() > 0 && in_class(s.last(), class) {
        lemma_trailing_bounds(s.drop_last(), class);
        assert forall|j: int| s.len() - trailing_in_class(s, class) <= j < s.len() implies in_class(
            #[trigger] s[j],
            class,
        ) by {
            if j < s.len() - 1 {
                assert(s[j] == s.drop_last()[j]);
            }
        }
        if trailing_in_class(s, class) < s.len() {
            assert(s[s.len() - trailing_in_class(s, class) - 1] == s.drop_last()[s.len()
                - trailing_in_class(s, class) - 1]);
        }
    }
}

/// A position `i` that opens a run of `class` characters reaching the end is the trailing cut.
pub proof fn lemma_trailing_unique(s: Seq<char>, class: CharClass, i: int)
    requires
        0 <= i <= s.len(),
        forall|j: int| i <= j < s.len() ==> in_class(#[trigger] s[j], class),
        i > 0 ==> !in_class(s[i - 1], class),
    ensures
        trailing_in_class(s, class) == s.len() - i,
    decreases s.len(),
{
    if i < s.len() {
        assert(in_class(s[s.len() - 1], class));
        assert forall|j: int| i <= j < s.len() - 1 implies in_class(#[trigger] s.drop_last()[j], class) by {
            assert(s.drop_last()[j] == s[j]);
        }
        if i > 0 {
            assert(s.drop_last()[i - 1] == s[i - 1]);
        }
        lemma_trailing_unique(s.drop_last(), class, i);
    }
}

pub proof fn lemma_index_of(s: Seq<char>, c: char)
    ensures
        match index_of(s, c) {
            Some(i) => i < s.len() && s[i as int] == c && forall|j: int| 0 <= j < i ==> #[trigger] s[j] != c,
            None => forall|j: int| 0 <= j < s.len() ==> #[trigger] s[j] != c,
        },
    decreases s.len(),
{
    if s.len() > 0 && s[0] != c {
        lemma_index_of(s.drop_first(), c);
        if let Some(i) = index_of(s.drop_first(), c) {
            assert forall|j: int| 0 <= j < i + 1 implies #[trigger] s[j] != c by {
                if j > 0 {
                    assert(s[j] == s.drop_first()[j - 1]);
                }
            }
        } else {
            assert forall|j: int| 0 <= j < s.len() implies #[trigger] s[j] != c by {
                if j > 0 {
                    assert(s[j] == s.drop_first()[j - 1]);
                }
            }
        }
    }
}

pub proof fn lemma_index_of_unique(s: Seq<char>, c: char, i: int)
    requires
        0 <= i < s.len(),
        s[i] == c,
        forall|j: int| 0 <= j < i ==> #[trigger] s[j] != c,
    ensures
        index_of(s, c) == Some(i as nat),
    decreases s.len(),
{
    if i > 0 {
        assert forall|j: int| 0 <= j < i - 1 implies #[trigger] s.drop_first()[j] != c by {
            assert(s.drop_first()[j] == s[j + 1]);
        }
        assert(s[0] != c);
        lemma_index_of_unique(s.drop_first(), c, i - 1);
    }
}

pub proof fn lemma_index_of_none(s: Seq<char>, c: char)
    requires
        forall|j: int| 0 <= j < s.len() ==> #[trigger] s[j] != c,
    ensures
        index_of(s, c) is None,
    decreases s.len(),
{
    if s.len() > 0 {
        assert(s[0] != c);
        assert forall|j: int| 0 <= j < s.len() - 1 implies #[trigger] s.drop_first()[j] != c by {
            assert(s.drop_first()[j] == s[j + 1]);
        }
        lemma_index_of_none(s.drop_first(), c);
    }
}

/// The ends of `trimmed(s)` are not whitespace, and its characters are those of `s` from the
/// first non-whitespace one on.
pub proof fn lemma_trimmed_shape(s: Seq<char>)
    ensures
        trimmed(s).len() > 0 ==> !is_whitespace(trimmed(s)[0]) && !is_whitespace(trimmed(s).last()),
        trimmed(s).len() + leading_in_class(s, CharClass::Whitespace) <= s.len(),
        forall|j: int|
            0 <= j < trimmed(s).len() ==> #[trigger] trimmed(s)[j] == s[j + leading_in_class(
                s,
                CharClass::Whitespace,
            )],
{
    let lead = leading_in_class(s, CharClass::Whitespace);
    lemma_leading_bounds(s, CharClass::Whitespace);
    let u = s.skip(lead as int);
    lemma_trailing_bounds(u, CharClass::Whitespace);
    let t = trimmed(s);
    if t.len() > 0 {
        assert(t[0] == u[0]);
        assert(t.last() == u[u.len() - trailing_in_class(u, CharClass::Whitespace) - 1]);
    }
}

/// A sequence whose ends are not whitespace is its own trim.
pub proof fn lemma_trimmed_fixed(t: Seq<char>)
    requires
        t.len() > 0 ==> !is_whitespace(t[0]) && !is_whitespace(t.last()),
    ensures
        trimmed(t) == t,
{
    lemma_leading_unique(t, CharClass::Whitespace, 0);
    assert(t.skip(0) =~= t);
    lemma_trailing_unique(t, CharClass::Whitespace, t.len() as int);
    assert(t.take(t.len() as int) =~= t);
}

/// Trimming twice trims once.
pub proof fn lemma_trimmed_idempotent(s: Seq<char>)
    ensures
        trimmed(trimmed(s)) == trimmed(s),
{
    lemma_trimmed_shape(s);
    lemma_trimmed_fixed(trimmed(s));
}

/// `char::is_whitespace`.
pub fn char_is_whitespace(c: char) -> (r: bool)
    ensures
        r == is_whitespace(c),
{
    c == ' ' || ('\t' <= c && c <= '\r') || c == '\u{85}' || c == '\u{a0}' || c == '\u{1680}' || (
    '\u{2000}' <= c && c <= '\u{200a}') || c == '\u{2028}' || c == '\u{2029}' || c == '\u{202f}'
        || c == '\u{205f}' || c == '\u{3000}'
}

pub fn char_in_class(c: char, class: CharClass) -> (r: bool)
    ensures
        r == in_class(c, class),
{
    match class {
        CharClass::Whitespace => char_is_whitespace(c),
        CharClass::SpaceOrTab => c == ' ' || c == '\t',
    }
}

/// The characters of `s`, in order.
pub fn chars_of(s: &str) -> (v: Vec<char>)
    ensures
        v@ == s@,
{
    let mut v: Vec<char> = Vec::new();
    for c in it: s.chars()
        invariant
            v@ == it.seq().take(it.index() as int),
    {
        v.push(c);
    }
    v
}

/// Appends `c` to `s` (`String::push`).
#[verifier::external_body]
pub(crate) fn push_char(s: &mut String, c: char)
    ensures
        final(s)@ == old(s)@.push(c),
{
    s.push(c);
}

/// A `String` holding `v[lo..hi]`.
pub fn string_from_chars(v: &Vec<char>, lo: usize, hi: usize) -> (s: String)
    requires
        lo <= hi <= v@.len(),
    ensures
        s@ == v@.subrange(lo as int, hi as int),
{
    let mut s = String::new();
    let mut i = lo;
    while i < hi
        invariant
            lo <= i <= hi <= v@.len(),
            s@ == v@.subrange(lo as int, i as int),
        decreases hi - i,
    {
        push_char(&mut s, v[i]);
        assert(v@.subrange(lo as int, i + 1) == v@.subrange(lo as int, i as int).push(v@[i as int]));
        i = i + 1;
    }
    s
}

/// Number of leading characters of `v[lo..hi]` in `class`.
pub fn leading_count(v: &Vec<char>, lo: usize, hi: usize, class: CharClass) -> (n: usize)
    requires
        lo <= hi <= v@.len(),
    ensures
        n == leading_in_class(v@.subrange(lo as int, hi as int), class),
        lo + n <= hi,
{
    let ghost s = v@.subrange(lo as int, hi as int);
    let mut i = lo;
    while i < hi && char_in_class(v[i], class)
        invariant
            lo <= i <= hi <= v@.len(),
            s == v@.subrange(lo as int, hi as int),
            forall|j: int| 0 <= j < i - lo ==> in_class(#[trigger] s[j], class),
        decreases hi - i,
    {
        i = i + 1;
    }
    proof {
        lemma_leading_unique(s, class, i - lo);
    }
    i - lo
}

/// Number of trailing characters of `v[lo..hi]` in `class`.
pub fn trailing_count(v: &Vec<char>, lo: usize, hi: usize, class: CharClass) -> (n: usize)
    requires
        lo <= hi <= v@.len(),
    ensures
        n == trailing_in_class(v@.subrange(lo as int, hi as int), class),
        lo + n <= hi,
{
    let ghost s = v@.subrange(lo as int, hi as int);
    let mut i = hi;
    while i > lo && char_in_class(v[i - 1], class)
        invariant
            lo <= i <= hi <= v@.len(),
            s == v@.subrange(lo as int, hi as int),
            forall|j: int| i - lo <= j < hi - lo ==> in_class(#[trigger] s[j], class),
        decreases i - lo,
    {
        i = i - 1;
    }
    proof {
        lemma_trailing_unique(s, class, i - lo);
    }
    hi - i
}

/// The bounds of `trimmed(v[lo..hi])` inside `v`.
pub fn trim_bounds(v: &Vec<char>, lo: usize, hi: usize) -> (r: (usize, usize))
    requires
        lo <= hi <= v@.len(),
    ensures
        lo <= r.0 <= r.1 <= hi,
        v@.subrange(r.0 as int, r.1 as int) == trimmed(v@.subrange(lo as int, hi as int)),
{
    let lead = leading_count(v, lo, hi, CharClass::Whitespace);
    let start = lo + lead;
    let trail = trailing_count(v, start, hi, CharClass::Whitespace);
    proof {
        let s = v@.subrange(lo as int, hi as int);
        assert(trim_start_class(s, CharClass::Whitespace) == v@.subrange(start as int, hi as int));
        assert(trimmed(s) == v@.subrange(start as int, hi as int).take(hi - start - trail));
        assert(v@.subrange(start as int, hi as int).take(hi - start - trail) == v@.subrange(
            start as int,
            (hi - trail) as int,
        ));
    }
    (start, hi - trail)
}

/// Whether `v[lo..hi]` begins with `prefix`.
pub fn range_starts_with(v: &Vec<char>, lo: usize, hi: usize, prefix: &Vec<char>) -> (r: bool)
    requires
        lo <= hi <= v@.len(),
    ensures
        r == starts_with(v@.subrange(lo as int, hi as int), prefix@),
{
    if prefix.len() > hi - lo {
        return false;
    }
    let mut i: usize = 0;
    while i < prefix.len()
        invariant
            i <= prefix@.len() <= hi - lo,
            lo <= hi <= v@.len(),
            forall|j: int| 0 <= j < i ==> v@[lo + j] == #[trigger] prefix@[j],
        decreases prefix@.len() - i,
    {
        if v[lo + i] != prefix[i] {
            assert(v@.subrange(lo as int, hi as int).take(prefix@.len() as int)[i as int] != prefix@[i as int]);
            return false;
        }
        i = i + 1;
    }
    assert(v@.subrange(lo as int, hi as int).take(prefix@.len() as int) =~= prefix@);
    true
}

/// Position (relative to `lo`) of the first `c` in `v[lo..hi]`.
pub fn find_char(v: &Vec<char>, lo: usize, hi: usize, c: char) -> (r: Option<usize>)
    requires
        lo <= hi <= v@.len(),
    ensures
        match index_of(v@.subrange(lo as int, hi as int), c) {
            Some(i) => r == Some(i as usize),
            None => r is None,
        },
{
    let ghost s = v@.subrange(lo as int, hi as int);
    let mut i = lo;
    while i < hi
        invariant
            lo <= i <= hi <= v@.len(),
            s == v@.subrange(lo as int, hi as int),
            forall|j: int| 0 <= j < i - lo ==> #[trigger] s[j] != c,
        decreases hi - i,
    {
        if v[i] == c {
            proof {
                lemma_index_of_unique(s, c, i - lo);
            }
            return Some(i - lo);
        }
        i = i + 1;
    }
    proof {
        lemma_index_of_none(s, c);
    }
    None
}

/// Appends `v[lo..hi]` to `s`.
pub fn append_chars(s: &mut String, v: &Vec<char>, lo: usize, hi: usize)
    requires
        lo <= hi <= v@.len(),
    ensures
        final(s)@ == old(s)@ + v@.subrange(lo as int, hi as int),
{
    let ghost start = s@;
    let mut i = lo;
    while i < hi
        invariant
            lo <= i <= hi <= v@.len(),
            s@ == start + v@.subrange(lo as int, i as int),
        decreases hi - i,
    {
        push_char(s, v[i]);
        assert(v@.subrange(lo as int, i + 1) == v@.subrange(lo as int, i as int).push(v@[i as int]));
        i = i + 1;
    }
}

/// A vector holding `v[lo..hi]`.
pub fn sub_vec(v: &Vec<char>, lo: usize, hi: usize) -> (r: Vec<char>)
    requires
        lo <= hi <= v@.len(),
    ensures
        r@ == v@.subrange(lo as int, hi as int),
{
    let mut r: Vec<char> = Vec::new();
    let mut i = lo;
    while i < hi
        invariant
            lo <= i <= hi <= v@.len(),
            r@ == v@.subrange(lo as int, i as int),
        decreases hi - i,
    {
        r.push(v[i]);
        assert(v@.subrange(lo as int, i + 1) == v@.subrange(lo as int, i as int).push(v@[i as int]));
        i = i + 1;
    }
    r
}

/// Whether `a` and `b` hold the same characters.
pub fn chars_eq(a: &Vec<char>, b: &Vec<char>) -> (r: bool)
    ensures
        r == (a@ == b@),
{
    if a.len() != b.len() {
        return false;
    }
    let mut i: usize = 0;
    while i < a.len()
        invariant
            i <= a@.len() == b@.len(),
            forall|j: int| 0 <= j < i ==> #[trigger] a@[j] == b@[j],
        decreases a@.len() - i,
    {
        if a[i] != b[i] {
            return false;
        }
        i = i + 1;
    }
    assert(a@ =~= b@);
    true
}

} // verus!
