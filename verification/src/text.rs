//! Character-level text utilities shared by the parser and the
//! renderers: character classes, first-occurrence search, trimming,
//! and splitting a text blob into lines.

use vstd::prelude::*;

verus! {

/// Horizontal whitespace inside a single line: space, tab, and
/// carriage return (so that CRLF input behaves like LF input).
/// Newlines never occur inside a line because lines are produced by
/// splitting on `'\n'`.
pub open spec fn is_ws(c: char) -> bool {
    c == ' ' || c == '\t' || c == '\r'
}

/// A character that may start a variable name: ASCII letter or underscore.
pub open spec fn is_key_start(c: char) -> bool {
    ('a' as u32 <= c as u32 && c as u32 <= 'z' as u32) || ('A' as u32 <= c as u32 && c as u32
        <= 'Z' as u32) || c == '_'
}

/// A character that may continue a variable name: letter, digit, underscore.
pub open spec fn is_key_char(c: char) -> bool {
    is_key_start(c) || ('0' as u32 <= c as u32 && c as u32 <= '9' as u32)
}

/// The conservative identifier pattern for variable names: nonempty,
/// not starting with a digit, made of letters, digits and underscores.
pub open spec fn valid_key(s: Seq<char>) -> bool {
    &&& s.len() > 0
    &&& is_key_start(s[0])
    &&& forall|i: int| 0 <= i < s.len() ==> is_key_char(#[trigger] s[i])
}

pub fn is_ws_char(c: char) -> (r: bool)
    ensures
        r == is_ws(c),
{
    c == ' ' || c == '\t' || c == '\r'
}

pub fn is_key_start_char(c: char) -> (r: bool)
    ensures
        r == is_key_start(c),
{
    let u = c as u32;
    (97 <= u && u <= 122) || (65 <= u && u <= 90) || c == '_'
}

pub fn is_key_char_char(c: char) -> (r: bool)
    ensures
        r == is_key_char(c),
{
    let u = c as u32;
    is_key_start_char(c) || (48 <= u && u <= 57)
}

/// Index of the first occurrence of `c` in `s`, if any.
pub open spec fn find_char(s: Seq<char>, c: char) -> Option<int>
    decreases s.len(),
{
    if s.len() == 0 {
        None
    } else if s[0] == c {
        Some(0)
    } else {
        match find_char(s.drop_first(), c) {
            None => None,
            Some(j) => Some(j + 1),
        }
    }
}

/// What `find_char` returns: the least index holding `c`, or `None`
/// when `c` does not occur.
pub proof fn lemma_find_char(s: Seq<char>, c: char)
    ensures
        match find_char(s, c) {
            Some(i) => 0 <= i < s.len() && s[i] == c && forall|j: int| 0 <= j < i ==> s[j] != c,
            None => forall|j: int| 0 <= j < s.len() ==> s[j] != c,
        },
    decreases s.len(),
{
    if s.len() > 0 && s[0] != c {
        lemma_find_char(s.drop_first(), c);
        match find_char(s.drop_first(), c) {
            None => {
                assert forall|j: int| 0 <= j < s.len() implies s[j] != c by {
                    if j > 0 {
                        assert(s[j] == s.drop_first()[j - 1]);
                    }
                }
            },
            Some(i) => {
                assert(s[i + 1] == s.drop_first()[i]);
                assert forall|j: int| 0 <= j < i + 1 implies s[j] != c by {
                    if j > 0 {
                        assert(s[j] == s.drop_first()[j - 1]);
                    }
                }
            },
        }
    }
}

/// `find_char` is pinned by the first-occurrence characterisation.
pub proof fn lemma_find_char_is(s: Seq<char>, c: char, i: int)
    requires
        0 <= i < s.len(),
        s[i] == c,
        forall|j: int| 0 <= j < i ==> s[j] != c,
    ensures
        find_char(s, c) == Some(i),
    decreases s.len(),
{
    if i > 0 {
        lemma_find_char_is(s.drop_first(), c, i - 1);
    }
}

pub proof fn lemma_find_char_none(s: Seq<char>, c: char)
    requires
        forall|j: int| 0 <= j < s.len() ==> s[j] != c,
    ensures
        find_char(s, c) is None,
    decreases s.len(),
{
    if s.len() > 0 {
        lemma_find_char_none(s.drop_first(), c);
    }
}

/// First occurrence of `c` in `s`, by linear scan.
pub fn find_char_in(s: &str, c: char) -> (r: Option<usize>)
    ensures
        match r {
            Some(i) => find_char(s@, c) == Some(i as int),
            None => find_char(s@, c) is None,
        },
{
    let n = s.unicode_len();
    let mut k: usize = 0;
    while k < n
        invariant
            n == s@.len(),
            0 <= k <= n,
            forall|j: int| 0 <= j < k ==> s@[j] != c,
        decreases n - k,
    {
        if s.get_char(k) == c {
            proof {
                lemma_find_char_is(s@, c, k as int);
            }
            return Some(k);
        }
        k = k + 1;
    }
    proof {
        lemma_find_char_none(s@, c);
    }
    None
}

/// `s` with leading whitespace removed.
pub open spec fn trim_start(s: Seq<char>) -> Seq<char>
    decreases s.len(),
{
    if s.len() > 0 && is_ws(s[0]) {
        trim_start(s.drop_first())
    } else {
        s
    }
}

/// `s` with trailing whitespace removed.
pub open spec fn trim_end(s: Seq<char>) -> Seq<char>
    decreases s.len(),
{
    if s.len() > 0 && is_ws(s.last()) {
        trim_end(s.drop_last())
    } else {
        s
    }
}

/// `s` with leading and trailing whitespace removed.
pub open spec fn trim(s: Seq<char>) -> Seq<char> {
    trim_end(trim_start(s))
}

/// When the first `a` characters are whitespace and the character at
/// `a` (if any) is not, `trim_start` keeps exactly the tail from `a`.
pub proof fn lemma_trim_start_is(s: Seq<char>, a: int)
    requires
        0 <= a <= s.len(),
        forall|j: int| 0 <= j < a ==> is_ws(#[trigger] s[j]),
        a < s.len() ==> !is_ws(s[a]),
    ensures
        trim_start(s) =~= s.subrange(a, s.len() as int),
    decreases s.len(),
{
    if s.len() > 0 && is_ws(s[0]) {
        assert(a > 0);
        lemma_trim_start_is(s.drop_first(), a - 1);
    }
}

/// When the characters after `b` are whitespace and the character at
/// `b - 1` (if any) is not, `trim_end` keeps exactly the head up to `b`.
pub proof fn lemma_trim_end_is(s: Seq<char>, b: int)
    requires
        0 <= b <= s.len(),
        forall|j: int| b <= j < s.len() ==> is_ws(#[trigger] s[j]),
        b > 0 ==> !is_ws(s[b - 1]),
    ensures
        trim_end(s) =~= s.subrange(0, b),
    decreases s.len(),
{
    if s.len() > 0 && is_ws(s.last()) {
        assert(b < s.len());
        lemma_trim_end_is(s.drop_last(), b);
    }
}

/// `s` trimmed of surrounding whitespace, by scanning for the first
/// and last non-whitespace characters.
pub fn trim_str<'a>(s: &'a str) -> (r: &'a str)
    ensures
        r@ == trim(s@),
{
    let n = s.unicode_len();
    let mut a: usize = 0;
    while a < n && is_ws_char(s.get_char(a))
        invariant
            n == s@.len(),
            0 <= a <= n,
            forall|j: int| 0 <= j < a ==> is_ws(#[trigger] s@[j]),
        decreases n - a,
    {
        a = a + 1;
    }
    proof {
        lemma_trim_start_is(s@, a as int);
    }
    if a == n {
        let r = s.substring_char(a, n);
        proof {
            lemma_trim_end_is(trim_start(s@), trim_start(s@).len() as int);
        }
        return r;
    }
    let mut b: usize = n;
    while b > a && is_ws_char(s.get_char(b - 1))
        invariant
            n == s@.len(),
            a <= b <= n,
            forall|j: int| b <= j < n ==> is_ws(#[trigger] s@[j]),
        decreases b,
    {
        b = b - 1;
    }
    let r = s.substring_char(a, b);
    proof {
        let t = trim_start(s@);
        assert(t =~= s@.subrange(a as int, n as int));
        assert(forall|j: int| b - a <= j < t.len() ==> is_ws(#[trigger] t[j]));
        assert(b > a && !is_ws(s@[b - 1]));
        assert(t[b - a - 1] == s@[b - 1]);
        lemma_trim_end_is(t, b - a);
        assert(trim(s@) =~= s@.subrange(a as int, b as int));
    }
    r
}

/// `s` with one trailing carriage return removed, so that a CRLF
/// line ending reads like a LF one.
pub open spec fn chomp_cr(s: Seq<char>) -> Seq<char> {
    if s.len() > 0 && s.last() == '\r' {
        s.drop_last()
    } else {
        s
    }
}

/// The lines of `t`: the chunks between `'\n'` characters, each with
/// a carriage return before the newline dropped. A text of `n`
/// newlines yields `n + 1` lines, so a trailing newline yields a
/// final empty line.
pub open spec fn split_lines(t: Seq<char>) -> Seq<Seq<char>>
    decreases t.len(),
    via split_lines_decreases
{
    match find_char(t, '\n') {
        None => seq![t],
        Some(i) => seq![chomp_cr(t.subrange(0, i))] + split_lines(t.subrange(i + 1, t.len() as int)),
    }
}

#[via_fn]
proof fn split_lines_decreases(t: Seq<char>) {
    lemma_find_char(t, '\n');
}

/// No line produced by `split_lines` contains a newline.
pub proof fn lemma_split_lines_no_newline(t: Seq<char>)
    ensures
        forall|k: int, j: int|
            0 <= k < split_lines(t).len() && 0 <= j < split_lines(t)[k].len()
                ==> #[trigger] split_lines(t)[k][j] != '\n',
    decreases t.len(),
{
    lemma_find_char(t, '\n');
    match find_char(t, '\n') {
        None => {},
        Some(i) => {
            let rest = t.subrange(i + 1, t.len() as int);
            lemma_split_lines_no_newline(rest);
            assert forall|k: int, j: int|
                0 <= k < split_lines(t).len() && 0 <= j < split_lines(t)[k].len() implies #[trigger] split_lines(
                t,
            )[k][j] != '\n' by {
                if k == 0 {
                    assert(split_lines(t)[0] == chomp_cr(t.subrange(0, i)));
                    assert(chomp_cr(t.subrange(0, i))[j] == t.subrange(0, i)[j]);
                    assert(t.subrange(0, i)[j] == t[j]);
                } else {
                    assert(split_lines(t)[k] == split_lines(rest)[k - 1]);
                }
            }
        },
    }
}

/// Splitting `head + '\n' + rest` where `head` holds no newline and
/// does not end in a carriage return yields `head` followed by the
/// lines of `rest`.
pub proof fn lemma_split_lines_concat(head: Seq<char>, rest: Seq<char>)
    requires
        forall|j: int| 0 <= j < head.len() ==> head[j] != '\n',
        head.len() > 0 ==> head.last() != '\r',
    ensures
        split_lines(head + seq!['\n'] + rest) =~= seq![head] + split_lines(rest),
{
    let t = head + seq!['\n'] + rest;
    lemma_find_char_is(t, '\n', head.len() as int);
    assert(t.subrange(0, head.len() as int) =~= head);
    assert(chomp_cr(head) == head);
    assert(t.subrange(head.len() as int + 1, t.len() as int) =~= rest);
}

/// Relies on String::push: appends one character at the end.
#[verifier::external_body]
pub(crate) fn push_char(s: &mut String, c: char)
    ensures
        final(s)@ == old(s)@.push(c),
{
    s.push(c)
}

/// Character-wise equality of two string slices.
pub fn str_eq(a: &str, b: &str) -> (r: bool)
    ensures
        r == (a@ == b@),
{
    let na = a.unicode_len();
    let nb = b.unicode_len();
    if na != nb {
        proof {
            assert(a@ != b@);
        }
        return false;
    }
    let mut k: usize = 0;
    while k < na
        invariant
            na == a@.len(),
            na == b@.len(),
            0 <= k <= na,
            forall|j: int| 0 <= j < k ==> a@[j] == b@[j],
        decreases na - k,
    {
        if a.get_char(k) != b.get_char(k) {
            return false;
        }
        k = k + 1;
    }
    proof {
        assert(a@ =~= b@);
    }
    true
}

/// The lines of `text`, in order.
pub fn split_lines_str(text: &str) -> (r: Vec<String>)
    ensures
        r@.map_values(|l: String| l@) =~= split_lines(text@),
{
    let mut out: Vec<String> = Vec::new();
    let mut rest: &str = text;
    loop
        invariant
            split_lines(text@) =~= out@.map_values(|l: String| l@) + split_lines(rest@),
        decreases rest@.len(),
    {
        proof {
            lemma_find_char(rest@, '\n');
        }
        match find_char_in(rest, '\n') {
            None => {
                out.push(String::from_str(rest));
                assert(out@.map_values(|l: String| l@) =~= split_lines(text@));
                return out;
            },
            Some(i) => {
                let n = rest.unicode_len();
                let end = if i > 0 && rest.get_char(i - 1) == '\r' {
                    i - 1
                } else {
                    i
                };
                let line = rest.substring_char(0, end);
                let ghost prev = rest@;
                out.push(String::from_str(line));
                rest = rest.substring_char(i + 1, n);
                proof {
                    assert(prev.subrange(0, end as int) =~= chomp_cr(prev.subrange(0, i as int)));
                    assert(split_lines(prev) =~= seq![chomp_cr(prev.subrange(0, i as int))]
                        + split_lines(rest@));
                    assert(out@.map_values(|l: String| l@) =~= out@.map_values(
                        |l: String| l@,
                    ).drop_last().push(line@));
                }
            },
        }
    }
}

} // verus!
