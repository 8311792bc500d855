//! Serialization of a parsed group into the texts this tool
//! persists: `export`-style lines for POSIX shells, `set -gx` lines
//! for fish, and the manifest of written keys kept beside the
//! Windows registry values.

use vstd::prelude::*;

use crate::parse::ParsedGroup;
use crate::text::push_char;
use crate::text::split_lines;
use crate::text::valid_key;
use crate::text::is_key_char;
use crate::text::lemma_split_lines_concat;

verus! {

/// Characters that must be backslash-escaped inside double quotes
/// for POSIX-sh-compatible shells.
pub open spec fn sh_special(c: char) -> bool {
    c == '\\' || c == '"' || c == '$' || c == '`'
}

/// Characters that must be backslash-escaped inside double quotes
/// for fish.
pub open spec fn fish_special(c: char) -> bool {
    c == '\\' || c == '"' || c == '$'
}

/// `v` with every POSIX-special character backslash-escaped.
pub open spec fn sh_escape(v: Seq<char>) -> Seq<char>
    decreases v.len(),
{
    if v.len() == 0 {
        Seq::empty()
    } else {
        sh_escape(v.drop_last()) + if sh_special(v.last()) {
            seq!['\\', v.last()]
        } else {
            seq![v.last()]
        }
    }
}

/// `v` with every fish-special character backslash-escaped.
pub open spec fn fish_escape(v: Seq<char>) -> Seq<char>
    decreases v.len(),
{
    if v.len() == 0 {
        Seq::empty()
    } else {
        fish_escape(v.drop_last()) + if fish_special(v.last()) {
            seq!['\\', v.last()]
        } else {
            seq![v.last()]
        }
    }
}

/// One `export KEY="VALUE"` line, newline included.
pub open spec fn sh_line(k: Seq<char>, v: Seq<char>) -> Seq<char> {
    "export "@ + k + "=\""@ + sh_escape(v) + "\"\n"@
}

/// One `set -gx KEY "VALUE"` line, newline included.
pub open spec fn fish_line(k: Seq<char>, v: Seq<char>) -> Seq<char> {
    "set -gx "@ + k + " \""@ + fish_escape(v) + "\"\n"@
}

/// The whole POSIX-sh integration file for the given entries.
pub open spec fn render_sh(es: Seq<(Seq<char>, Seq<char>)>) -> Seq<char>
    decreases es.len(),
{
    if es.len() == 0 {
        Seq::empty()
    } else {
        render_sh(es.drop_last()) + sh_line(es.last().0, es.last().1)
    }
}

/// The whole fish integration file for the given entries.
pub open spec fn render_fish(es: Seq<(Seq<char>, Seq<char>)>) -> Seq<char>
    decreases es.len(),
{
    if es.len() == 0 {
        Seq::empty()
    } else {
        render_fish(es.drop_last()) + fish_line(es.last().0, es.last().1)
    }
}

/// The manifest text: one key per line.
pub open spec fn manifest_text(ks: Seq<Seq<char>>) -> Seq<char>
    decreases ks.len(),
{
    if ks.len() == 0 {
        Seq::empty()
    } else {
        ks[0] + seq!['\n'] + manifest_text(ks.drop_first())
    }
}

/// The keys of an entry sequence, in order.
pub open spec fn keys_of(es: Seq<(Seq<char>, Seq<char>)>) -> Seq<Seq<char>> {
    es.map_values(|kv: (Seq<char>, Seq<char>)| kv.0)
}

/// The nonempty lines, in order.
pub open spec fn nonempty_lines(lines: Seq<Seq<char>>) -> Seq<Seq<char>>
    decreases lines.len(),
{
    if lines.len() == 0 {
        Seq::empty()
    } else {
        (if lines[0].len() > 0 {
            seq![lines[0]]
        } else {
            Seq::empty()
        }) + nonempty_lines(lines.drop_first())
    }
}

/// A key that matches the identifier pattern holds neither a newline
/// nor a carriage return.
pub proof fn lemma_valid_key_no_newline(k: Seq<char>)
    requires
        valid_key(k),
    ensures
        forall|j: int| 0 <= j < k.len() ==> k[j] != '\n' && k[j] != '\r',
{
    assert forall|j: int| 0 <= j < k.len() implies k[j] != '\n' && k[j] != '\r' by {
        assert(is_key_char(k[j]));
        assert(!is_key_char('\n') && !is_key_char('\r'));
    }
}

/// Parsing the manifest back yields exactly the keys it was written
/// from: the manifest round trip is lossless for valid keys.
pub proof fn lemma_manifest_round_trip(ks: Seq<Seq<char>>)
    requires
        forall|i: int| 0 <= i < ks.len() ==> valid_key(#[trigger] ks[i]),
    ensures
        nonempty_lines(split_lines(manifest_text(ks))) =~= ks,
    decreases ks.len(),
{
    if ks.len() == 0 {
        let one = seq![Seq::<char>::empty()];
        assert(split_lines(manifest_text(ks)) =~= one);
        assert(one.len() == 1 && one[0].len() == 0);
        assert(one.drop_first() =~= Seq::<Seq<char>>::empty());
        assert(nonempty_lines(one.drop_first()).len() == 0);
        assert(nonempty_lines(one) =~= Seq::<Seq<char>>::empty() + nonempty_lines(
            one.drop_first(),
        ));
        assert(nonempty_lines(one) =~= Seq::<Seq<char>>::empty());
    } else {
        let head = ks[0];
        let rest = ks.drop_first();
        lemma_valid_key_no_newline(head);
        lemma_split_lines_concat(head, manifest_text(rest));
        lemma_manifest_round_trip(rest);
        let lines = split_lines(manifest_text(ks));
        assert(lines =~= seq![head] + split_lines(manifest_text(rest)));
        assert(lines.drop_first() =~= split_lines(manifest_text(rest)));
        assert(nonempty_lines(lines) =~= seq![head] + nonempty_lines(lines.drop_first()));
    }
}

/// Append the backslash-escaped form of `v` to `out`, POSIX style.
fn append_sh_escaped(out: &mut String, v: &str)
    ensures
        final(out)@ == old(out)@ + sh_escape(v@),
{
    let n = v.unicode_len();
    let mut k: usize = 0;
    while k < n
        invariant
            n == v@.len(),
            0 <= k <= n,
            out@ == old(out)@ + sh_escape(v@.subrange(0, k as int)),
        decreases n - k,
    {
        let c = v.get_char(k);
        if c == '\\' || c == '"' || c == '$' || c == '`' {
            push_char(out, '\\');
        }
        push_char(out, c);
        proof {
            let pre = v@.subrange(0, k as int);
            let pre1 = v@.subrange(0, k as int + 1);
            assert(pre1.drop_last() =~= pre);
            assert(pre1.last() == v@[k as int]);
            if sh_special(v@[k as int]) {
                assert(out@ =~= old(out)@ + (sh_escape(pre) + seq!['\\', v@[k as int]]));
            } else {
                assert(out@ =~= old(out)@ + (sh_escape(pre) + seq![v@[k as int]]));
            }
        }
        k = k + 1;
    }
    proof {
        assert(v@.subrange(0, n as int) =~= v@);
    }
}

/// Append the backslash-escaped form of `v` to `out`, fish style.
fn append_fish_escaped(out: &mut String, v: &str)
    ensures
        final(out)@ == old(out)@ + fish_escape(v@),
{
    let n = v.unicode_len();
    let mut k: usize = 0;
    while k < n
        invariant
            n == v@.len(),
            0 <= k <= n,
            out@ == old(out)@ + fish_escape(v@.subrange(0, k as int)),
        decreases n - k,
    {
        let c = v.get_char(k);
        if c == '\\' || c == '"' || c == '$' {
            push_char(out, '\\');
        }
        push_char(out, c);
        proof {
            let pre = v@.subrange(0, k as int);
            let pre1 = v@.subrange(0, k as int + 1);
            assert(pre1.drop_last() =~= pre);
            assert(pre1.last() == v@[k as int]);
            if fish_special(v@[k as int]) {
                assert(out@ =~= old(out)@ + (fish_escape(pre) + seq!['\\', v@[k as int]]));
            } else {
                assert(out@ =~= old(out)@ + (fish_escape(pre) + seq![v@[k as int]]));
            }
        }
        k = k + 1;
    }
    proof {
        assert(v@.subrange(0, n as int) =~= v@);
    }
}

/// The POSIX-sh integration file content for `g`: one
/// `export KEY="VALUE"` line per variable, values escaped for double
/// quotes.
pub fn render_sh_file(g: &ParsedGroup) -> (r: String)
    ensures
        r@ == render_sh(g.seq_view()),
{
    let mut out = String::new();
    let n = g.entries.len();
    let mut k: usize = 0;
    while k < n
        invariant
            n == g.entries@.len(),
            0 <= k <= n,
            out@ == render_sh(g.seq_view().subrange(0, k as int)),
        decreases n - k,
    {
        out.append("export ");
        out.append(g.entries[k].key.as_str());
        out.append("=\"");
        append_sh_escaped(&mut out, g.entries[k].value.as_str());
        out.append("\"\n");
        proof {
            let es = g.seq_view();
            let pre = es.subrange(0, k as int);
            let pre1 = es.subrange(0, k as int + 1);
            assert(pre1.drop_last() =~= pre);
            assert(es[k as int] == (g.entries@[k as int].key@, g.entries@[k as int].value@));
            assert(pre1.last() == es[k as int]);
            assert(out@ =~= render_sh(pre) + sh_line(es[k as int].0, es[k as int].1));
        }
        k = k + 1;
    }
    proof {
        assert(g.seq_view().subrange(0, n as int) =~= g.seq_view());
    }
    out
}

/// The fish integration file content for `g`: one
/// `set -gx KEY "VALUE"` line per variable, values escaped for
/// double quotes.
pub fn render_fish_file(g: &ParsedGroup) -> (r: String)
    ensures
        r@ == render_fish(g.seq_view()),
{
    let mut out = String::new();
    let n = g.entries.len();
    let mut k: usize = 0;
    while k < n
        invariant
            n == g.entries@.len(),
            0 <= k <= n,
            out@ == render_fish(g.seq_view().subrange(0, k as int)),
        decreases n - k,
    {
        out.append("set -gx ");
        out.append(g.entries[k].key.as_str());
        out.append(" \"");
        append_fish_escaped(&mut out, g.entries[k].value.as_str());
        out.append("\"\n");
        proof {
            let es = g.seq_view();
            let pre = es.subrange(0, k as int);
            let pre1 = es.subrange(0, k as int + 1);
            assert(pre1.drop_last() =~= pre);
            assert(es[k as int] == (g.entries@[k as int].key@, g.entries@[k as int].value@));
            assert(pre1.last() == es[k as int]);
            assert(out@ =~= render_fish(pre) + fish_line(es[k as int].0, es[k as int].1));
        }
        k = k + 1;
    }
    proof {
        assert(g.seq_view().subrange(0, n as int) =~= g.seq_view());
    }
    out
}

/// The manifest content for `g`: one key per line.
pub fn render_manifest(g: &ParsedGroup) -> (r: String)
    ensures
        r@ == manifest_text(keys_of(g.seq_view())),
{
    let mut out = String::new();
    let n = g.entries.len();
    let mut k: usize = 0;
    while k < n
        invariant
            n == g.entries@.len(),
            0 <= k <= n,
            out@ == manifest_text(keys_of(g.seq_view()).subrange(0, k as int)),
            forall|i: int|
                0 <= i < n ==> #[trigger] keys_of(g.seq_view())[i] == g.entries@[i].key@,
        decreases n - k,
    {
        out.append(g.entries[k].key.as_str());
        push_char(&mut out, '\n');
        proof {
            lemma_manifest_text_snoc(keys_of(g.seq_view()), k as int);
        }
        k = k + 1;
    }
    proof {
        assert(keys_of(g.seq_view()).subrange(0, n as int) =~= keys_of(g.seq_view()));
    }
    out
}

/// Extending a manifest prefix by one key appends that key's line.
proof fn lemma_manifest_text_snoc(ks: Seq<Seq<char>>, k: int)
    requires
        0 <= k < ks.len(),
    ensures
        manifest_text(ks.subrange(0, k + 1)) =~= manifest_text(ks.subrange(0, k)) + ks[k] + seq![
            '\n',
        ],
    decreases k,
{
    if k == 0 {
        assert(ks.subrange(0, 1) =~= seq![ks[0]]);
        assert(seq![ks[0]].drop_first() =~= Seq::<Seq<char>>::empty());
        assert(ks.subrange(0, 0) =~= Seq::<Seq<char>>::empty());
    } else {
        let pre1 = ks.subrange(0, k + 1);
        assert(pre1[0] == ks[0]);
        assert(pre1.drop_first() =~= ks.drop_first().subrange(0, k));
        assert(ks.subrange(0, k)[0] == ks[0]);
        assert(ks.subrange(0, k).drop_first() =~= ks.drop_first().subrange(0, k - 1));
        lemma_manifest_text_snoc(ks.drop_first(), k - 1);
        assert(ks.drop_first()[k - 1] == ks[k]);
        assert(manifest_text(pre1) =~= ks[0] + seq!['\n'] + manifest_text(
            ks.drop_first().subrange(0, k),
        ));
        assert(manifest_text(ks.subrange(0, k)) =~= ks[0] + seq!['\n'] + manifest_text(
            ks.drop_first().subrange(0, k - 1),
        ));
        assert(manifest_text(ks.drop_first().subrange(0, k)) =~= manifest_text(
            ks.drop_first().subrange(0, k - 1),
        ) + ks[k] + seq!['\n']);
    }
}

/// The nonempty lines of a manifest, as owned strings.
pub fn parse_manifest(m: &str) -> (r: Vec<String>)
    ensures
        r@.map_values(|s: String| s@) =~= nonempty_lines(split_lines(m@)),
{
    let lines = crate::text::split_lines_str(m);
    let ghost ls = split_lines(m@);
    let mut out: Vec<String> = Vec::new();
    let n = lines.len();
    let mut k: usize = 0;
    proof {
        assert(ls.skip(0) =~= ls);
        assert(out@.map_values(|s: String| s@) =~= Seq::<Seq<char>>::empty());
    }
    while k < n
        invariant
            n == lines@.len(),
            lines@.map_values(|l: String| l@) =~= ls,
            0 <= k <= n,
            nonempty_lines(ls) =~= out@.map_values(|s: String| s@) + nonempty_lines(
                ls.skip(k as int),
            ),
        decreases n - k,
    {
        let ghost tail = ls.skip(k as int);
        proof {
            assert(tail.len() > 0);
            assert(tail[0] == ls[k as int]);
            assert(tail.drop_first() =~= ls.skip(k as int + 1));
            assert(lines@.map_values(|l: String| l@)[k as int] == lines@[k as int]@);
        }
        if lines[k].as_str().unicode_len() > 0 {
            out.push(String::from_str(lines[k].as_str()));
            proof {
                assert(out@.map_values(|s: String| s@) =~= out@.map_values(
                    |s: String| s@,
                ).drop_last().push(lines@[k as int]@));
                assert(nonempty_lines(tail) =~= seq![ls[k as int]] + nonempty_lines(
                    ls.skip(k as int + 1),
                ));
            }
        } else {
            proof {
                assert(nonempty_lines(tail) =~= nonempty_lines(ls.skip(k as int + 1)));
            }
        }
        k = k + 1;
    }
    proof {
        assert(ls.skip(n as int) =~= Seq::<Seq<char>>::empty());
        assert(out@.map_values(|s: String| s@) =~= nonempty_lines(ls));
    }
    out
}

} // verus!
