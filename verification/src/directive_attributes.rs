//! The attribute block of an assistant directive such as
//! `:codex-followup[Label]{prompt="Do the thing."}`.
//!
//! Between the braces stands a whitespace-separated list of attributes. An attribute is a key
//! made of ASCII letters, digits, `-` and `_`, optionally followed by `=` and a value. A value is
//! either a double-quoted string, in which a backslash makes the next character literal, or a
//! non-empty run of characters that are neither whitespace nor `"`. A key without a value has the
//! empty value. The block is accepted only when it is such a list from end to end.

use vstd::prelude::*;

use crate::text::{chars_of, char_is_whitespace, is_whitespace, range_starts_with};

verus! {

/// The characters that a token of the attribute list is made of.
#[derive(Clone, Copy, PartialEq, Eq, Debug)]
pub enum TokenKind {
    /// Characters of an attribute key.
    Key,
    /// Whitespace between attributes.
    Space,
    /// Characters of an unquoted value.
    Bare,
}

pub open spec fn is_key_char(c: char) -> bool {
    ('a' <= c && c <= 'z') || ('A' <= c && c <= 'Z') || ('0' <= c && c <= '9') || c == '-' || c
        == '_'
}

pub open spec fn token_char(c: char, kind: TokenKind) -> bool {
    match kind {
        TokenKind::Key => is_key_char(c),
        TokenKind::Space => is_whitespace(c),
        TokenKind::Bare => !is_whitespace(c) && c != '"',
    }
}

/// End of the run of `kind` characters that starts at `i`.
pub open spec fn span_end(s: Seq<char>, i: int, kind: TokenKind) -> int
    decreases s.len() - i,
{
    if 0 <= i < s.len() && token_char(s[i], kind) {
        span_end(s, i + 1, kind)
    } else {
        i
    }
}

/// A double-quoted value whose opening quote stands just before `i`: the position after the
/// closing quote and the unescaped content.
pub open spec fn quoted_value(s: Seq<char>, i: int) -> Option<(int, Seq<char>)>
    decreases s.len() - i,
{
    if i < 0 || i >= s.len() {
        None
    } else if s[i] == '"' {
        Some((i + 1, Seq::empty()))
    } else if s[i] == '\\' {
        if i + 1 >= s.len() {
            None
        } else {
            match quoted_value(s, i + 2) {
                Some((e, v)) => Some((e, seq![s[i + 1]] + v)),
                None => None,
            }
        }
    } else {
        match quoted_value(s, i + 1) {
            Some((e, v)) => Some((e, seq![s[i]] + v)),
            None => None,
        }
    }
}

/// The attribute that starts at `i`: where it ends, its key and its value.
pub open spec fn attribute_at(s: Seq<char>, i: int) -> Option<(int, (Seq<char>, Seq<char>))> {
    let k = span_end(s, i, TokenKind::Key);
    if k == i {
        None
    } else if k < s.len() && s[k] == '=' {
        if k + 1 < s.len() && s[k + 1] == '"' {
            match quoted_value(s, k + 2) {
                Some((e, v)) => Some((e, (s.subrange(i, k), v))),
                None => None,
            }
        } else {
            let u = span_end(s, k + 1, TokenKind::Bare);
            if u == k + 1 {
                None
            } else {
                Some((u, (s.subrange(i, k), s.subrange(k + 1, u))))
            }
        }
    } else {
        Some((k, (s.subrange(i, k), Seq::empty())))
    }
}

pub proof fn lemma_span_end(s: Seq<char>, i: int, kind: TokenKind)
    requires
        0 <= i <= s.len(),
    ensures
        i <= span_end(s, i, kind) <= s.len(),
    decreases s.len() - i,
{
    if i < s.len() && token_char(s[i], kind) {
        lemma_span_end(s, i + 1, kind);
    }
}

pub proof fn lemma_quoted_value(s: Seq<char>, i: int)
    ensures
        quoted_value(s, i) matches Some((e, v)) ==> i < e <= s.len(),
    decreases s.len() - i,
{
    if 0 <= i < s.len() && s[i] != '"' {
        if s[i] == '\\' {
            if i + 1 < s.len() {
                lemma_quoted_value(s, i + 2);
            }
        } else {
            lemma_quoted_value(s, i + 1);
        }
    }
}

pub proof fn lemma_attribute_at(s: Seq<char>, i: int)
    requires
        0 <= i <= s.len(),
    ensures
        attribute_at(s, i) matches Some((e, a)) ==> i < e <= s.len(),
{
    lemma_span_end(s, i, TokenKind::Key);
    let k = span_end(s, i, TokenKind::Key);
    if k != i && k < s.len() && s[k] == '=' {
        lemma_quoted_value(s, k + 2);
        lemma_span_end(s, k + 1, TokenKind::Bare);
    }
}

/// The attributes from position `i` (just after whitespace) to the end of `s`.
pub open spec fn attributes_from(s: Seq<char>, i: int) -> Option<Seq<(Seq<char>, Seq<char>)>>
    decreases s.len() - i,
{
    if i < 0 || i >= s.len() {
        Some(Seq::empty())
    } else {
        match attribute_at(s, i) {
            None => None,
            Some((e, a)) => {
                if e >= s.len() {
                    Some(seq![a])
                } else if !is_whitespace(s[e]) {
                    None
                } else {
                    proof {
                        lemma_attribute_at(s, i);
                        lemma_span_end(s, e, TokenKind::Space);
                    }
                    match attributes_from(s, span_end(s, e, TokenKind::Space)) {
                        Some(rest) => Some(seq![a] + rest),
                        None => None,
                    }
                }
            },
        }
    }
}

/// The attribute list that `s` spells out in full, or `None` when `s` is not one.
pub open spec fn parse_attributes(s: Seq<char>) -> Option<Seq<(Seq<char>, Seq<char>)>> {
    attributes_from(s, span_end(s, 0, TokenKind::Space))
}

/// The value of the last attribute named `key`.
pub open spec fn lookup_last(list: Seq<(Seq<char>, Seq<char>)>, key: Seq<char>) -> Option<Seq<char>>
    decreases list.len(),
{
    if list.len() == 0 {
        None
    } else if list.last().0 == key {
        Some(list.last().1)
    } else {
        lookup_last(list.drop_last(), key)
    }
}

/// The value of `key` in the attribute list `s`: `None` when `s` is not an attribute list,
/// `Some(None)` when it is one without `key`.
pub open spec fn attribute_value(s: Seq<char>, key: Seq<char>) -> Option<Option<Seq<char>>> {
    match parse_attributes(s) {
        Some(list) => Some(lookup_last(list, key)),
        None => None,
    }
}

proof fn lemma_lookup_last_append(a: Seq<(Seq<char>, Seq<char>)>, b: Seq<(Seq<char>, Seq<char>)>, key: Seq<char>)
    ensures
        lookup_last(a + b, key) == match lookup_last(b, key) {
            Some(v) => Some(v),
            None => lookup_last(a, key),
        },
    decreases b.len(),
{
    if b.len() == 0 {
        assert(a + b =~= a);
    } else {
        assert((a + b).last() == b.last());
        assert((a + b).drop_last() =~= a + b.drop_last());
        lemma_lookup_last_append(a, b.drop_last(), key);
    }
}

/// `value` as it is written between the quotes of a double-quoted value: each `"` and `\` is
/// preceded by a backslash.
pub open spec fn escape_quoted(value: Seq<char>) -> Seq<char>
    decreases value.len(),
{
    if value.len() == 0 {
        Seq::empty()
    } else if value[0] == '"' || value[0] == '\\' {
        seq!['\\', value[0]] + escape_quoted(value.drop_first())
    } else {
        seq![value[0]] + escape_quoted(value.drop_first())
    }
}

/// A run of `kind` characters from `i` that stops at `j` ends at `j`.
proof fn lemma_span_end_run(s: Seq<char>, i: int, j: int, kind: TokenKind)
    requires
        0 <= i <= j <= s.len(),
        forall|k: int| i <= k < j ==> token_char(#[trigger] s[k], kind),
        j < s.len() ==> !token_char(s[j], kind),
    ensures
        span_end(s, i, kind) == j,
    decreases j - i,
{
    if i < j {
        lemma_span_end_run(s, i + 1, j, kind);
    }
}

/// An escaped value followed by a closing quote reads back as the value.
proof fn lemma_quoted_value_escaped(s: Seq<char>, i: int, value: Seq<char>)
    requires
        0 <= i,
        i + escape_quoted(value).len() < s.len(),
        s.subrange(i, i + escape_quoted(value).len()) == escape_quoted(value),
        s[i + escape_quoted(value).len()] == '"',
    ensures
        quoted_value(s, i) == Some((i + escape_quoted(value).len() + 1, value)),
    decreases value.len(),
{
    let esc = escape_quoted(value);
    if value.len() > 0 {
        let c = value[0];
        let rest = value.drop_first();
        let er = escape_quoted(rest);
        let step: int = if c == '"' || c == '\\' {
            2
        } else {
            1
        };
        assert(esc.len() == step + er.len());
        assert(s[i] == esc[0]);
        if step == 2 {
            assert(s[i + 1] == esc[1]);
        }
        assert(s.subrange(i + step, i + step + er.len()) =~= er) by {
            assert forall|k: int| 0 <= k < er.len() implies s.subrange(i + step, i + step
                + er.len())[k] == er[k] by {
                assert(s[i + step + k] == esc[step + k]);
            }
        }
        lemma_quoted_value_escaped(s, i + step, rest);
        assert(seq![c] + rest =~= value);
    }
}

/// The canonical attribute block `prompt="…"` holding `value`.
pub open spec fn canonical_prompt_attribute(value: Seq<char>) -> Seq<char> {
    "prompt"@ + seq!['=', '"'] + escape_quoted(value) + seq!['"']
}

/// The canonical attribute block reads back as its value.
pub proof fn lemma_canonical_prompt_attribute(value: Seq<char>)
    ensures
        attribute_value(canonical_prompt_attribute(value), "prompt"@) == Some(Some(value)),
{
    reveal_strlit("prompt");
    let key = "prompt"@;
    let esc = escape_quoted(value);
    let s = canonical_prompt_attribute(value);
    assert(s.len() == 9 + esc.len());
    assert(s[0] == 'p');
    assert(span_end(s, 0, TokenKind::Space) == 0);
    assert forall|k: int| 0 <= k < 6 implies token_char(#[trigger] s[k], TokenKind::Key) by {
        assert(s[k] == key[k]);
    }
    assert(s[6] == '=');
    lemma_span_end_run(s, 0, 6, TokenKind::Key);
    assert(s[7] == '"');
    assert(s.subrange(8, 8 + esc.len() as int) =~= esc);
    assert(s[8 + esc.len() as int] == '"');
    lemma_quoted_value_escaped(s, 8, value);
    assert(s.subrange(0, 6) =~= key);
    let a = (key, value);
    assert(attribute_at(s, 0) == Some((s.len() as int, a)));
    assert(attributes_from(s, 0) == Some(seq![a]));
    assert(seq![a].last() == a);
}

fn token_char_exec(c: char, kind: TokenKind) -> (r: bool)
    ensures
        r == token_char(c, kind),
{
    match kind {
        TokenKind::Key => ('a' <= c && c <= 'z') || ('A' <= c && c <= 'Z') || ('0' <= c && c <= '9')
            || c == '-' || c == '_',
        TokenKind::Space => char_is_whitespace(c),
        TokenKind::Bare => !char_is_whitespace(c) && c != '"',
    }
}

fn span_end_exec(s: &Vec<char>, i: usize, kind: TokenKind) -> (e: usize)
    requires
        i <= s@.len(),
    ensures
        e == span_end(s@, i as int, kind),
        i <= e <= s@.len(),
{
    let mut j = i;
    while j < s.len() && token_char_exec(s[j], kind)
        invariant
            i <= j <= s@.len(),
            span_end(s@, i as int, kind) == span_end(s@, j as int, kind),
        decreases s@.len() - j,
    {
        j = j + 1;
    }
    j
}

fn quoted_value_exec(s: &Vec<char>, i: usize) -> (r: Option<(usize, Vec<char>)>)
    requires
        i <= s@.len(),
    ensures
        match quoted_value(s@, i as int) {
            Some((e, v)) => r matches Some((e2, v2)) && e2 == e && v2@ == v,
            None => r is None,
        },
{
    let mut out: Vec<char> = Vec::new();
    let mut j = i;
    loop
        invariant
            i <= j,
            quoted_value(s@, i as int) == match quoted_value(s@, j as int) {
                Some((e, v)) => Some((e, out@ + v)),
                None => None,
            },
        decreases s@.len() - j,
    {
        if j >= s.len() {
            return None;
        }
        if s[j] == '"' {
            assert(out@ + Seq::<char>::empty() =~= out@);
            return Some((j + 1, out));
        }
        if s[j] == '\\' {
            if j + 1 >= s.len() {
                return None;
            }
            let c = s[j + 1];
            proof {
                assert forall|v: Seq<char>| out@ + (seq![c] + v) =~= out@.push(c) + v by {}
            }
            out.push(c);
            j = j + 2;
        } else {
            let c = s[j];
            proof {
                assert forall|v: Seq<char>| out@ + (seq![c] + v) =~= out@.push(c) + v by {}
            }
            out.push(c);
            j = j + 1;
        }
    }
}

/// Whether `a[lo..hi]` is `b`.
fn chars_equal(a: &Vec<char>, lo: usize, hi: usize, b: &Vec<char>) -> (r: bool)
    requires
        lo <= hi <= a@.len(),
    ensures
        r == (a@.subrange(lo as int, hi as int) == b@),
{
    let r = hi - lo == b.len() && range_starts_with(a, lo, hi, b);
    proof {
        let sub = a@.subrange(lo as int, hi as int);
        if sub.len() == b@.len() {
            assert(sub.take(b@.len() as int) =~= sub);
        }
    }
    r
}

/// The attribute that starts at `i`, as its end, whether its key is `key`, and its value.
fn attribute_at_exec(s: &Vec<char>, i: usize, key: &Vec<char>) -> (r: Option<(usize, bool, Vec<char>)>)
    requires
        i <= s@.len(),
    ensures
        match attribute_at(s@, i as int) {
            Some((e, a)) => r matches Some((e2, is_key, v)) && e2 == e && is_key == (a.0 == key@)
                && v@ == a.1,
            None => r is None,
        },
{
    let k = span_end_exec(s, i, TokenKind::Key);
    if k == i {
        return None;
    }
    let is_key = chars_equal(s, i, k, key);
    if k < s.len() && s[k] == '=' {
        if k + 1 < s.len() && s[k + 1] == '"' {
            match quoted_value_exec(s, k + 2) {
                Some((e, v)) => Some((e, is_key, v)),
                None => None,
            }
        } else {
            let u = span_end_exec(s, k + 1, TokenKind::Bare);
            if u == k + 1 {
                None
            } else {
                let mut v: Vec<char> = Vec::new();
                let mut j = k + 1;
                while j < u
                    invariant
                        k + 1 <= j <= u <= s@.len(),
                        v@ == s@.subrange(k + 1, j as int),
                    decreases u - j,
                {
                    v.push(s[j]);
                    assert(s@.subrange(k + 1, j + 1) == s@.subrange(k + 1, j as int).push(s@[j as int]));
                    j = j + 1;
                }
                Some((u, is_key, v))
            }
        }
    } else {
        Some((k, is_key, Vec::new()))
    }
}

/// The value of the last attribute named `key` in the attribute list `s`: `None` when `s` is
/// not an attribute list, `Some(None)` when it is one without `key`.
pub fn attribute_value_of(s: &Vec<char>, key: &Vec<char>) -> (r: Option<Option<Vec<char>>>)
    ensures
        match attribute_value(s@, key@) {
            None => r is None,
            Some(None) => r == Some(None::<Vec<char>>),
            Some(Some(v)) => r matches Some(Some(w)) && w@ == v,
        },
{
    let mut i = span_end_exec(s, 0, TokenKind::Space);
    let ghost mut done: Seq<(Seq<char>, Seq<char>)> = Seq::empty();
    let mut found: Option<Vec<char>> = None;
    loop
        invariant
            i <= s@.len(),
            parse_attributes(s@) == match attributes_from(s@, i as int) {
                Some(rest) => Some(done + rest),
                None => None,
            },
            match lookup_last(done, key@) {
                Some(v) => found matches Some(w) && w@ == v,
                None => found is None,
            },
        decreases s@.len() - i,
    {
        if i >= s.len() {
            proof {
                assert(done + Seq::<(Seq<char>, Seq<char>)>::empty() =~= done);
            }
            return Some(found);
        }
        match attribute_at_exec(s, i, key) {
            None => {
                return None;
            },
            Some((e, is_key, v)) => {
                let ghost a = attribute_at(s@, i as int).unwrap().1;
                proof {
                    lemma_attribute_at(s@, i as int);
                    let ghost old_done = done;
                    done = done.push(a);
                    lemma_lookup_last_append(old_done, seq![a], key@);
                    assert(seq![a].last() == a);
                    assert(seq![a].drop_last() =~= Seq::<(Seq<char>, Seq<char>)>::empty());
                    assert(lookup_last(Seq::<(Seq<char>, Seq<char>)>::empty(), key@) is None);
                    if a.0 == key@ {
                        assert(lookup_last(seq![a], key@) == Some(a.1));
                    } else {
                        assert(lookup_last(seq![a], key@) is None);
                    }
                    assert(is_key == (a.0 == key@));
                    assert(v@ == a.1);
                    assert(old_done + seq![a] =~= done);
                    assert forall|rest: Seq<(Seq<char>, Seq<char>)>|
                        old_done + (seq![a] + rest) =~= done + rest by {}
                }
                if is_key {
                    found = Some(v);
                }
                if e >= s.len() {
                    return Some(found);
                }
                if !char_is_whitespace(s[e]) {
                    return None;
                }
                i = span_end_exec(s, e, TokenKind::Space);
            },
        }
    }
}

/// The value of the last attribute named `prompt` in `s`, when `s` is an attribute list.
pub fn prompt_attribute(s: &Vec<char>) -> (r: Option<Option<Vec<char>>>)
    ensures
        match attribute_value(s@, "prompt"@) {
            None => r is None,
            Some(None) => r == Some(None::<Vec<char>>),
            Some(Some(v)) => r matches Some(Some(w)) && w@ == v,
        },
{
    let key = chars_of("prompt");
    attribute_value_of(s, &key)
}

} // verus!
