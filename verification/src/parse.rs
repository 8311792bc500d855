//! The dotenv-like parser: one `KEY=VALUE` assignment per line, blank
//! lines and `#` comments ignored, a single fully-matched pair of
//! surrounding quotes stripped from the value, later duplicate keys
//! overwriting earlier ones.

use vstd::prelude::*;

use crate::text::find_char;
use crate::text::find_char_in;
use crate::text::is_key_char;
use crate::text::is_key_char_char;
use crate::text::is_key_start;
use crate::text::is_key_start_char;
use crate::text::lemma_find_char;
use crate::text::lemma_split_lines_no_newline;
use crate::text::split_lines;
use crate::text::split_lines_str;
use crate::text::trim;
use crate::text::trim_str;
use crate::text::valid_key;

verus! {

/// One variable assignment: a name and its raw value.
pub struct EnvEntry {
    pub key: String,
    pub value: String,
}

/// The ordered mapping produced by one parse: keys are unique and
/// match the identifier pattern, values hold no embedded newline.
pub struct ParsedGroup {
    pub entries: Vec<EnvEntry>,
}

/// The parse failure: the first offending line, with its 1-based
/// number and raw content. A line offends when it is neither blank
/// nor a comment and is not a `KEY=VALUE` assignment with a valid key.
#[derive(Debug)]
pub enum ParseError {
    InvalidKey { line: usize, content: String },
}

/// A line that carries no assignment: blank (whitespace only) or a
/// comment (`#` as first non-whitespace character).
pub open spec fn line_skip(l: Seq<char>) -> bool {
    trim(l).len() == 0 || trim(l)[0] == '#'
}

/// The value with a single fully-matched pair of surrounding double
/// or single quotes stripped, if present; otherwise unchanged.
pub open spec fn strip_quotes(v: Seq<char>) -> Seq<char> {
    if v.len() >= 2 && (v[0] == '"' || v[0] == '\'') && v[v.len() - 1] == v[0] {
        v.subrange(1, v.len() - 1)
    } else {
        v
    }
}

/// The key/value carried by an assignment line: the trimmed text
/// before the first `=` and the quote-stripped text after it; `None`
/// when the line holds no `=`.
pub open spec fn line_entry(l: Seq<char>) -> Option<(Seq<char>, Seq<char>)> {
    match find_char(l, '=') {
        None => None,
        Some(i) => Some(
            (trim(l.subrange(0, i)), strip_quotes(l.subrange(i + 1, l.len() as int))),
        ),
    }
}

/// A line the parser accepts: skipped, or an assignment whose key
/// matches the identifier pattern.
pub open spec fn line_ok(l: Seq<char>) -> bool {
    line_skip(l) || (line_entry(l) is Some && valid_key(line_entry(l)->Some_0.0))
}

/// Index of the first line the parser rejects, if any.
pub open spec fn first_bad_line(lines: Seq<Seq<char>>) -> Option<int>
    decreases lines.len(),
{
    if lines.len() == 0 {
        None
    } else if !line_ok(lines[0]) {
        Some(0)
    } else {
        match first_bad_line(lines.drop_first()) {
            None => None,
            Some(j) => Some(j + 1),
        }
    }
}

/// `first_bad_line` is pinned by its characterisation.
pub proof fn lemma_first_bad_line_is(lines: Seq<Seq<char>>, i: int)
    requires
        0 <= i < lines.len(),
        !line_ok(lines[i]),
        forall|j: int| 0 <= j < i ==> line_ok(#[trigger] lines[j]),
    ensures
        first_bad_line(lines) == Some(i),
    decreases lines.len(),
{
    if i > 0 {
        lemma_first_bad_line_is(lines.drop_first(), i - 1);
    }
}

pub proof fn lemma_first_bad_line_none(lines: Seq<Seq<char>>)
    requires
        forall|j: int| 0 <= j < lines.len() ==> line_ok(#[trigger] lines[j]),
    ensures
        first_bad_line(lines) is None,
    decreases lines.len(),
{
    if lines.len() > 0 {
        lemma_first_bad_line_none(lines.drop_first());
    }
}

/// The mapping denoted by a sequence of key/value pairs: later pairs
/// overwrite earlier ones.
pub open spec fn map_of_entries(es: Seq<(Seq<char>, Seq<char>)>) -> Map<Seq<char>, Seq<char>>
    decreases es.len(),
{
    if es.len() == 0 {
        Map::empty()
    } else {
        map_of_entries(es.drop_last()).insert(es.last().0, es.last().1)
    }
}

/// `es` with `k` bound to `v`: the value replaced in place where `k`
/// already occurs (first occurrence), appended at the end where it
/// does not.
pub open spec fn upsert(es: Seq<(Seq<char>, Seq<char>)>, k: Seq<char>, v: Seq<char>) -> Seq<
    (Seq<char>, Seq<char>),
>
    decreases es.len(),
{
    if es.len() == 0 {
        seq![(k, v)]
    } else if es[0].0 == k {
        seq![(k, v)] + es.drop_first()
    } else {
        seq![es[0]] + upsert(es.drop_first(), k, v)
    }
}

/// When `k` first occurs at index `i`, an upsert is an update in
/// place.
proof fn lemma_upsert_found(es: Seq<(Seq<char>, Seq<char>)>, i: int, v: Seq<char>)
    requires
        0 <= i < es.len(),
        forall|j: int| 0 <= j < i ==> (#[trigger] es[j].0) != es[i].0,
    ensures
        upsert(es, es[i].0, v) =~= es.update(i, (es[i].0, v)),
    decreases es.len(),
{
    if es[0].0 == es[i].0 {
        assert(i == 0);
    } else {
        assert(i > 0);
        assert forall|j: int| 0 <= j < i - 1 implies (#[trigger] es.drop_first()[j].0)
            != es.drop_first()[i - 1].0 by {
            assert(es.drop_first()[j] == es[j + 1]);
        }
        lemma_upsert_found(es.drop_first(), i - 1, v);
        assert(es.drop_first().update(i - 1, (es[i].0, v)) =~= es.update(
            i,
            (es[i].0, v),
        ).drop_first());
    }
}

/// When `k` occurs nowhere, an upsert is an append.
proof fn lemma_upsert_absent(es: Seq<(Seq<char>, Seq<char>)>, k: Seq<char>, v: Seq<char>)
    requires
        forall|j: int| 0 <= j < es.len() ==> (#[trigger] es[j].0) != k,
    ensures
        upsert(es, k, v) =~= es.push((k, v)),
    decreases es.len(),
{
    if es.len() > 0 {
        lemma_upsert_absent(es.drop_first(), k, v);
        assert(es.drop_first().push((k, v)) =~= es.push((k, v)).drop_first());
    }
}

/// The entries denoted by a sequence of raw lines, in order of first
/// occurrence of each key, each bound to its last assigned value.
pub open spec fn entries_of_lines(lines: Seq<Seq<char>>) -> Seq<(Seq<char>, Seq<char>)>
    decreases lines.len(),
{
    if lines.len() == 0 {
        Seq::empty()
    } else {
        let prev = entries_of_lines(lines.drop_last());
        let l = lines.last();
        if line_skip(l) {
            prev
        } else {
            match line_entry(l) {
                None => prev,
                Some(kv) => upsert(prev, kv.0, kv.1),
            }
        }
    }
}

/// The mapping denoted by a sequence of raw lines: skipped lines
/// contribute nothing, assignment lines bind their key, later lines
/// overwriting earlier ones.
pub open spec fn map_of_lines(lines: Seq<Seq<char>>) -> Map<Seq<char>, Seq<char>>
    decreases lines.len(),
{
    if lines.len() == 0 {
        Map::empty()
    } else {
        let m = map_of_lines(lines.drop_last());
        let l = lines.last();
        if line_skip(l) {
            m
        } else {
            match line_entry(l) {
                None => m,
                Some(kv) => m.insert(kv.0, kv.1),
            }
        }
    }
}

impl ParsedGroup {
    /// The entries as a sequence of key/value character sequences.
    pub open spec fn seq_view(&self) -> Seq<(Seq<char>, Seq<char>)> {
        self.entries@.map_values(|e: EnvEntry| (e.key@, e.value@))
    }

    /// The mapping the entries denote.
    pub open spec fn map_view(&self) -> Map<Seq<char>, Seq<char>> {
        map_of_entries(self.seq_view())
    }

    /// Well-formedness: every key matches the identifier pattern,
    /// keys are pairwise distinct, and no value embeds a newline.
    pub open spec fn wf(&self) -> bool {
        &&& forall|i: int|
            0 <= i < self.entries@.len() ==> valid_key(#[trigger] self.entries@[i].key@)
        &&& forall|i: int, j: int|
            0 <= i < j < self.entries@.len() ==> (#[trigger] self.entries@[i].key@)
                != (#[trigger] self.entries@[j].key@)
        &&& forall|i: int, j: int|
            0 <= i < self.entries@.len() && 0 <= j < self.entries@[i].value@.len()
                ==> #[trigger] self.entries@[i].value@[j] != '\n'
    }

    /// An empty group.
    pub fn new() -> (r: ParsedGroup)
        ensures
            r.wf(),
            r.map_view() == Map::<Seq<char>, Seq<char>>::empty(),
            r.entries@.len() == 0,
    {
        ParsedGroup { entries: Vec::new() }
    }

    /// The number of distinct variables.
    pub fn len(&self) -> (r: usize)
        ensures
            r == self.entries@.len(),
    {
        self.entries.len()
    }

    /// Bind `key` to `value`, overwriting any earlier binding.
    pub fn set(&mut self, key: String, value: String)
        requires
            old(self).wf(),
            valid_key(key@),
            forall|j: int| 0 <= j < value@.len() ==> value@[j] != '\n',
        ensures
            final(self).wf(),
            final(self).seq_view() == upsert(old(self).seq_view(), key@, value@),
            final(self).map_view() == old(self).map_view().insert(key@, value@),
            final(self).entries@.len() <= old(self).entries@.len() + 1,
    {
        let n = self.entries.len();
        let mut k: usize = 0;
        while k < n
            invariant
                *self == *old(self),
                old(self).wf(),
                valid_key(key@),
                forall|j: int| 0 <= j < value@.len() ==> value@[j] != '\n',
                n == self.entries@.len(),
                0 <= k <= n,
                forall|j: int| 0 <= j < k ==> #[trigger] self.entries@[j].key@ != key@,
            decreases n - k,
        {
            if crate::text::str_eq(self.entries[k].key.as_str(), key.as_str()) {
                let ghost old_seq = self.seq_view();
                proof {
                    lemma_seq_view_keys_distinct(*self);
                }
                self.entries[k].value = value;
                proof {
                    assert(self.entries@ =~= old(self).entries@.update(
                        k as int,
                        self.entries@[k as int],
                    ));
                    assert(self.seq_view() =~= old_seq.update(
                        k as int,
                        (old_seq[k as int].0, value@),
                    ));
                    lemma_map_of_entries_update(old_seq, k as int, value@);
                    assert(old_seq[k as int].0 == key@);
                    assert(final(self).map_view() == old(self).map_view().insert(key@, value@));
                    assert forall|j: int| 0 <= j < k implies (#[trigger] old_seq[j].0)
                        != old_seq[k as int].0 by {
                        assert(old_seq[j].0 == old(self).entries@[j].key@);
                    }
                    lemma_upsert_found(old_seq, k as int, value@);
                    assert(final(self).seq_view() == upsert(old_seq, key@, value@));
                    assert forall|i: int| 0 <= i < self.entries@.len() implies valid_key(
                        #[trigger] self.entries@[i].key@,
                    ) by {
                        assert(self.entries@[i].key@ == old(self).entries@[i].key@);
                    }
                    assert forall|i: int, j: int|
                        0 <= i < j < self.entries@.len() implies (
                    #[trigger] self.entries@[i].key@) != (#[trigger] self.entries@[j].key@) by {
                        assert(self.entries@[i].key@ == old(self).entries@[i].key@);
                        assert(self.entries@[j].key@ == old(self).entries@[j].key@);
                    }
                    assert forall|i: int, j: int|
                        0 <= i < self.entries@.len() && 0 <= j
                            < self.entries@[i].value@.len() implies (
                    #[trigger] self.entries@[i].value@[j]) != '\n' by {
                        if i != k {
                            assert(self.entries@[i].value@ == old(self).entries@[i].value@);
                        } else {
                            assert(self.entries@[i].value@ == value@);
                            assert(value@[j] != '\n');
                        }
                    }
                }
                return ;
            }
            k = k + 1;
        }
        let ghost old_seq = self.seq_view();
        proof {
            assert forall|j: int| 0 <= j < old_seq.len() implies (#[trigger] old_seq[j].0)
                != key@ by {
                assert(old_seq[j].0 == self.entries@[j].key@);
            }
            lemma_upsert_absent(old_seq, key@, value@);
        }
        self.entries.push(EnvEntry { key, value });
        proof {
            assert(self.seq_view() =~= old_seq.push(
                (self.entries@.last().key@, self.entries@.last().value@),
            ));
            assert(self.seq_view().drop_last() =~= old_seq);
            assert(final(self).map_view() == old(self).map_view().insert(key@, value@));
            assert(final(self).seq_view() == upsert(old_seq, key@, value@));
        }
    }

    /// Look a key up in the mapping.
    pub fn get<'a>(&'a self, key: &str) -> (r: Option<&'a String>)
        requires
            self.wf(),
        ensures
            match r {
                Some(v) => self.map_view().contains_key(key@) && v@ == self.map_view()[key@],
                None => !self.map_view().contains_key(key@),
            },
    {
        let n = self.entries.len();
        let mut k: usize = 0;
        while k < n
            invariant
                self.wf(),
                n == self.entries@.len(),
                0 <= k <= n,
                forall|j: int| 0 <= j < k ==> #[trigger] self.entries@[j].key@ != key@,
            decreases n - k,
        {
            if crate::text::str_eq(self.entries[k].key.as_str(), key) {
                proof {
                    lemma_seq_view_keys_distinct(*self);
                    lemma_map_of_entries_get(self.seq_view(), k as int);
                }
                return Some(&self.entries[k].value);
            }
            k = k + 1;
        }
        proof {
            assert forall|i: int| 0 <= i < self.seq_view().len() implies (
            #[trigger] self.seq_view()[i].0) != key@ by {
                assert(self.seq_view()[i].0 == self.entries@[i].key@);
            }
            lemma_map_of_entries_absent(self.seq_view(), key@);
        }
        None
    }
}

/// What one raw line contributes to the parse.
enum LineClass {
    Skip,
    Assign { key: String, value: String },
    Bad,
}

/// Whether `s` matches the identifier pattern for keys.
pub fn check_key(s: &str) -> (r: bool)
    ensures
        r == valid_key(s@),
{
    let n = s.unicode_len();
    if n == 0 {
        return false;
    }
    if !is_key_start_char(s.get_char(0)) {
        return false;
    }
    let mut k: usize = 0;
    while k < n
        invariant
            n == s@.len(),
            0 <= k <= n,
            n > 0 && is_key_start(s@[0]),
            forall|j: int| 0 <= j < k ==> is_key_char(#[trigger] s@[j]),
        decreases n - k,
    {
        if !is_key_char_char(s.get_char(k)) {
            return false;
        }
        k = k + 1;
    }
    true
}

/// The value with one fully-matched pair of surrounding quotes
/// stripped, if present.
fn strip_quotes_str<'a>(v: &'a str) -> (r: &'a str)
    ensures
        r@ == strip_quotes(v@),
{
    let n = v.unicode_len();
    if n >= 2 {
        let c0 = v.get_char(0);
        if (c0 == '"' || c0 == '\'') && v.get_char(n - 1) == c0 {
            return v.substring_char(1, n - 1);
        }
    }
    v
}

/// Classify one raw line.
fn classify_line(l: &str) -> (r: LineClass)
    ensures
        match r {
            LineClass::Skip => line_skip(l@),
            LineClass::Assign { key, value } => {
                &&& !line_skip(l@)
                &&& line_entry(l@) == Some((key@, value@))
                &&& valid_key(key@)
            },
            LineClass::Bad => !line_ok(l@),
        },
{
    let t = trim_str(l);
    if t.unicode_len() == 0 {
        return LineClass::Skip;
    }
    if t.get_char(0) == '#' {
        return LineClass::Skip;
    }
    match find_char_in(l, '=') {
        None => LineClass::Bad,
        Some(i) => {
            let n = l.unicode_len();
            proof {
                lemma_find_char(l@, '=');
            }
            let keypart = l.substring_char(0, i);
            let key = trim_str(keypart);
            if !check_key(key) {
                LineClass::Bad
            } else {
                let rawval = l.substring_char(i + 1, n);
                let value = strip_quotes_str(rawval);
                LineClass::Assign { key: String::from_str(key), value: String::from_str(value) }
            }
        },
    }
}

/// The value carried by an assignment line built from newline-free
/// text holds no newline either.
proof fn lemma_line_entry_value_no_newline(l: Seq<char>)
    requires
        forall|j: int| 0 <= j < l.len() ==> l[j] != '\n',
        line_entry(l) is Some,
    ensures
        forall|j: int|
            0 <= j < line_entry(l)->Some_0.1.len() ==> #[trigger] line_entry(l)->Some_0.1[j]
                != '\n',
{
    let i = find_char(l, '=')->Some_0;
    lemma_find_char(l, '=');
    let raw = l.subrange(i + 1, l.len() as int);
    let v = line_entry(l)->Some_0.1;
    assert forall|j: int| 0 <= j < v.len() implies #[trigger] v[j] != '\n' by {
        if raw.len() >= 2 && (raw[0] == '"' || raw[0] == '\'') && raw[raw.len() - 1] == raw[0] {
            assert(v[j] == raw[j + 1]);
            assert(raw[j + 1] == l[i + 1 + j + 1]);
        } else {
            assert(v[j] == raw[j]);
            assert(raw[j] == l[i + 1 + j]);
        }
    }
}

/// Parse a dotenv-like text blob into a group of variables.
///
/// Lines are the chunks between newlines. Blank lines and comment
/// lines are ignored; every other line must be a `KEY=VALUE`
/// assignment whose trimmed key matches the identifier pattern, and
/// the first line that is not fails the whole parse, reported with
/// its 1-based number and raw content. The mapping returned binds
/// each key to the value of its last assignment.
pub fn parse_dotenv_like(text: &str) -> (r: Result<ParsedGroup, ParseError>)
    ensures
        match r {
            Ok(g) => {
                &&& g.wf()
                &&& first_bad_line(split_lines(text@)) is None
                &&& g.seq_view() == entries_of_lines(split_lines(text@))
                &&& g.map_view() == map_of_lines(split_lines(text@))
            },
            Err(e) => {
                let ParseError::InvalidKey { line, content } = e;
                match first_bad_line(split_lines(text@)) {
                    Some(j) => line == j + 1 && content@ == split_lines(text@)[j],
                    None => false,
                }
            },
        },
{
    let lines = split_lines_str(text);
    let ghost ls = split_lines(text@);
    proof {
        lemma_split_lines_no_newline(text@);
    }
    let mut g = ParsedGroup::new();
    let n = lines.len();
    let mut idx: usize = 0;
    while idx < n
        invariant
            n == lines@.len(),
            lines@.map_values(|l: String| l@) =~= ls,
            ls == split_lines(text@),
            forall|k: int, j: int|
                0 <= k < ls.len() && 0 <= j < ls[k].len() ==> #[trigger] ls[k][j] != '\n',
            0 <= idx <= n,
            g.wf(),
            forall|j: int| 0 <= j < idx ==> line_ok(#[trigger] ls[j]),
            g.seq_view() == entries_of_lines(ls.subrange(0, idx as int)),
            g.map_view() == map_of_lines(ls.subrange(0, idx as int)),
        decreases n - idx,
    {
        let ghost prefix = ls.subrange(0, idx as int);
        let ghost prefix1 = ls.subrange(0, idx as int + 1);
        proof {
            assert(prefix1.drop_last() =~= prefix);
            assert(lines@.map_values(|l: String| l@)[idx as int] == lines@[idx as int]@);
            assert(prefix1.last() == ls[idx as int]);
        }
        match classify_line(lines[idx].as_str()) {
            LineClass::Skip => {
                proof {
                    assert(map_of_lines(prefix1) == map_of_lines(prefix));
                    assert(entries_of_lines(prefix1) == entries_of_lines(prefix));
                }
            },
            LineClass::Assign { key, value } => {
                proof {
                    lemma_line_entry_value_no_newline(ls[idx as int]);
                    assert(line_entry(ls[idx as int])->Some_0.1 == value@);
                    assert forall|j: int| 0 <= j < value@.len() implies value@[j] != '\n' by {
                        assert(line_entry(ls[idx as int])->Some_0.1[j] != '\n');
                    }
                }
                g.set(key, value);
            },
            LineClass::Bad => {
                proof {
                    lemma_first_bad_line_is(ls, idx as int);
                }
                let content = String::from_str(lines[idx].as_str());
                return Err(ParseError::InvalidKey { line: idx + 1, content });
            },
        }
        idx = idx + 1;
    }
    proof {
        lemma_first_bad_line_none(ls);
        assert(ls.subrange(0, n as int) =~= ls);
    }
    Ok(g)
}

/// A well-formed group's entry sequence carries pairwise-distinct keys.
proof fn lemma_seq_view_keys_distinct(g: ParsedGroup)
    requires
        g.wf(),
    ensures
        forall|i: int, j: int|
            0 <= i < j < g.seq_view().len() ==> (#[trigger] g.seq_view()[i].0)
                != (#[trigger] g.seq_view()[j].0),
        forall|i: int|
            0 <= i < g.seq_view().len() ==> #[trigger] g.seq_view()[i] == (
            g.entries@[i].key@,
            g.entries@[i].value@,
            ),
{
    assert forall|i: int, j: int| 0 <= i < j < g.seq_view().len() implies (
    #[trigger] g.seq_view()[i].0) != (#[trigger] g.seq_view()[j].0) by {
        assert(g.seq_view()[i].0 == g.entries@[i].key@);
        assert(g.seq_view()[j].0 == g.entries@[j].key@);
    }
}

/// Updating the value at an index whose key is unique rebinds that
/// key and nothing else.
proof fn lemma_map_of_entries_update(es: Seq<(Seq<char>, Seq<char>)>, k: int, v: Seq<char>)
    requires
        0 <= k < es.len(),
        forall|i: int, j: int| 0 <= i < j < es.len() ==> (#[trigger] es[i].0) != (#[trigger] es[j].0),
    ensures
        map_of_entries(es.update(k, (es[k].0, v))) == map_of_entries(es).insert(es[k].0, v),
    decreases es.len(),
{
    let es2 = es.update(k, (es[k].0, v));
    if k == es.len() - 1 {
        assert(es2.drop_last() =~= es.drop_last());
        assert(map_of_entries(es2) =~= map_of_entries(es).insert(es[k].0, v));
    } else {
        assert(es2.drop_last() =~= es.drop_last().update(k, (es[k].0, v)));
        assert(es.drop_last()[k] == es[k]);
        lemma_map_of_entries_update(es.drop_last(), k, v);
        assert(es2.last() == es.last());
        assert(es[k].0 != es.last().0);
        assert(map_of_entries(es2) =~= map_of_entries(es).insert(es[k].0, v));
    }
}

/// When keys are pairwise distinct, the mapping binds the key at any
/// index to the value at that index.
proof fn lemma_map_of_entries_get(es: Seq<(Seq<char>, Seq<char>)>, k: int)
    requires
        0 <= k < es.len(),
        forall|i: int, j: int| 0 <= i < j < es.len() ==> (#[trigger] es[i].0) != (#[trigger] es[j].0),
    ensures
        map_of_entries(es).contains_key(es[k].0),
        map_of_entries(es)[es[k].0] == es[k].1,
    decreases es.len(),
{
    if k < es.len() - 1 {
        lemma_map_of_entries_get(es.drop_last(), k);
        assert(es[k].0 != es.last().0);
    }
}

/// A key carried by no entry is absent from the mapping.
proof fn lemma_map_of_entries_absent(es: Seq<(Seq<char>, Seq<char>)>, key: Seq<char>)
    requires
        forall|i: int| 0 <= i < es.len() ==> (#[trigger] es[i].0) != key,
    ensures
        !map_of_entries(es).contains_key(key),
    decreases es.len(),
{
    if es.len() > 0 {
        lemma_map_of_entries_absent(es.drop_last(), key);
    }
}

} // verus!
