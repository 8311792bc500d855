//! A model of the persisted integration state: files as a map from
//! path to content, the per-user registry as a map from value name
//! to value. The laws proved here say that disabling is idempotent
//! on both platforms and that a Windows apply/disable round trip
//! removes exactly the keys it wrote, leaving unrelated registry
//! values untouched.

use vstd::prelude::*;

use crate::parse::map_of_entries;
use crate::plan::stale_keys;
use crate::plan::joined;
use crate::plan::manifest_path;
use crate::plan::posix_apply_writes;
use crate::plan::posix_disable_writes;
use crate::render::keys_of;
use crate::render::lemma_manifest_round_trip;
use crate::render::manifest_text;
use crate::render::nonempty_lines;
use crate::render::render_fish;
use crate::render::render_sh;
use crate::text::split_lines;
use crate::text::valid_key;

verus! {

/// The state after overwriting each listed path with its content,
/// in order.
pub open spec fn state_after_writes(
    st: Map<Seq<char>, Seq<char>>,
    ws: Seq<(Seq<char>, Seq<char>)>,
) -> Map<Seq<char>, Seq<char>>
    decreases ws.len(),
{
    if ws.len() == 0 {
        st
    } else {
        state_after_writes(st, ws.drop_last()).insert(ws.last().0, ws.last().1)
    }
}

/// The state after removing each listed key, in order.
pub open spec fn state_after_removes(
    st: Map<Seq<char>, Seq<char>>,
    ks: Seq<Seq<char>>,
) -> Map<Seq<char>, Seq<char>>
    decreases ks.len(),
{
    if ks.len() == 0 {
        st
    } else {
        state_after_removes(st, ks.drop_last()).remove(ks.last())
    }
}

/// Pointwise description of a write sequence: a key written by `ws`
/// ends at its last written value, any other key keeps its prior
/// binding.
pub proof fn lemma_state_after_writes_elem(
    st: Map<Seq<char>, Seq<char>>,
    ws: Seq<(Seq<char>, Seq<char>)>,
    k: Seq<char>,
)
    ensures
        state_after_writes(st, ws).contains_key(k) <==> (st.contains_key(k) || map_of_entries(
            ws,
        ).contains_key(k)),
        map_of_entries(ws).contains_key(k) ==> state_after_writes(st, ws)[k] == map_of_entries(
            ws,
        )[k],
        !map_of_entries(ws).contains_key(k) && st.contains_key(k) ==> state_after_writes(st, ws)[k]
            == st[k],
    decreases ws.len(),
{
    if ws.len() > 0 {
        lemma_state_after_writes_elem(st, ws.drop_last(), k);
    }
}

/// Pointwise description of a remove sequence: a removed key is
/// gone, any other key keeps its prior binding.
pub proof fn lemma_state_after_removes_elem(
    st: Map<Seq<char>, Seq<char>>,
    ks: Seq<Seq<char>>,
    k: Seq<char>,
)
    ensures
        state_after_removes(st, ks).contains_key(k) <==> (st.contains_key(k) && !ks.contains(k)),
        state_after_removes(st, ks).contains_key(k) ==> state_after_removes(st, ks)[k] == st[k],
    decreases ks.len(),
{
    if ks.len() > 0 {
        lemma_state_after_removes_elem(st, ks.drop_last(), k);
        assert(ks.contains(k) <==> (ks.drop_last().contains(k) || ks.last() == k)) by {
            if ks.contains(k) {
                let i = choose|i: int| 0 <= i < ks.len() && ks[i] == k;
                if i < ks.len() - 1 {
                    assert(ks.drop_last()[i] == k);
                }
            }
            if ks.drop_last().contains(k) {
                let i = choose|i: int| 0 <= i < ks.drop_last().len() && ks.drop_last()[i] == k;
                assert(ks[i] == k);
            }
            if ks.last() == k {
                assert(ks[ks.len() - 1] == k);
            }
        }
    }
}

/// Every key bound by a write sequence was one of its keys.
pub proof fn lemma_map_of_entries_keys(es: Seq<(Seq<char>, Seq<char>)>, k: Seq<char>)
    ensures
        map_of_entries(es).contains_key(k) <==> keys_of(es).contains(k),
    decreases es.len(),
{
    if es.len() > 0 {
        lemma_map_of_entries_keys(es.drop_last(), k);
        assert(keys_of(es.drop_last()) =~= keys_of(es).drop_last());
        assert(keys_of(es).last() == es.last().0);
        assert(keys_of(es).contains(k) <==> (keys_of(es).drop_last().contains(k) || keys_of(
            es,
        ).last() == k)) by {
            if keys_of(es).contains(k) {
                let i = choose|i: int| 0 <= i < keys_of(es).len() && keys_of(es)[i] == k;
                if i < keys_of(es).len() - 1 {
                    assert(keys_of(es).drop_last()[i] == k);
                }
            }
            if keys_of(es).drop_last().contains(k) {
                let i = choose|i: int|
                    0 <= i < keys_of(es).drop_last().len() && keys_of(es).drop_last()[i] == k;
                assert(keys_of(es)[i] == k);
            }
            if keys_of(es).last() == k {
                assert(keys_of(es)[keys_of(es).len() - 1] == k);
            }
        }
    }
}

/// Overwriting the same files with the same contents twice leaves
/// the same state as doing it once: disable (and apply) are
/// idempotent on file state.
pub proof fn lemma_overwrite_idempotent(
    st: Map<Seq<char>, Seq<char>>,
    ws: Seq<(Seq<char>, Seq<char>)>,
)
    ensures
        state_after_writes(state_after_writes(st, ws), ws) == state_after_writes(st, ws),
{
    let one = state_after_writes(st, ws);
    let two = state_after_writes(one, ws);
    assert forall|k: Seq<char>| #[trigger] two.contains_key(k) <==> one.contains_key(k) by {
        lemma_state_after_writes_elem(st, ws, k);
        lemma_state_after_writes_elem(one, ws, k);
    }
    assert forall|k: Seq<char>| two.contains_key(k) implies #[trigger] two[k] == one[k] by {
        lemma_state_after_writes_elem(st, ws, k);
        lemma_state_after_writes_elem(one, ws, k);
    }
    assert(two =~= one);
}

/// Removing the same keys twice leaves the same state as removing
/// them once.
pub proof fn lemma_remove_idempotent(st: Map<Seq<char>, Seq<char>>, ks: Seq<Seq<char>>)
    ensures
        state_after_removes(state_after_removes(st, ks), ks) == state_after_removes(st, ks),
{
    let one = state_after_removes(st, ks);
    let two = state_after_removes(one, ks);
    assert forall|k: Seq<char>| #[trigger] two.contains_key(k) <==> one.contains_key(k) by {
        lemma_state_after_removes_elem(st, ks, k);
        lemma_state_after_removes_elem(one, ks, k);
    }
    assert forall|k: Seq<char>| two.contains_key(k) implies #[trigger] two[k] == one[k] by {
        lemma_state_after_removes_elem(st, ks, k);
        lemma_state_after_removes_elem(one, ks, k);
    }
    assert(two =~= one);
}

/// A POSIX apply fully overwrites each integration file: afterwards
/// every file holds exactly the current group's lines, whatever was
/// there before. In particular, re-applying with an empty group
/// leaves every file empty — full overwrite, not merge.
pub proof fn lemma_posix_apply_overwrites(
    fs: Map<Seq<char>, Seq<char>>,
    dir: Seq<char>,
    es: Seq<(Seq<char>, Seq<char>)>,
)
    ensures
        ({
            let after = state_after_writes(fs, posix_apply_writes(dir, es));
            &&& after.contains_key(joined(dir, "ev.sh"@)) && after[joined(dir, "ev.sh"@)]
                == render_sh(es)
            &&& after.contains_key(joined(dir, "ev.zsh"@)) && after[joined(dir, "ev.zsh"@)]
                == render_sh(es)
            &&& after.contains_key(joined(dir, "ev.fish"@)) && after[joined(dir, "ev.fish"@)]
                == render_fish(es)
        }),
        posix_apply_writes(dir, Seq::empty()) =~= posix_disable_writes(dir),
{
    reveal_strlit("ev.sh");
    reveal_strlit("ev.zsh");
    reveal_strlit("ev.fish");
    assert("ev.sh"@.len() == 5 && "ev.zsh"@.len() == 6 && "ev.fish"@.len() == 7);
    let ws = posix_apply_writes(dir, es);
    assert(joined(dir, "ev.sh"@).len() == dir.len() + 6);
    assert(joined(dir, "ev.zsh"@).len() == dir.len() + 7);
    assert(joined(dir, "ev.fish"@).len() == dir.len() + 8);
    let w0 = seq![ws[0]];
    let w01 = seq![ws[0], ws[1]];
    assert(w0.drop_last() =~= Seq::<(Seq<char>, Seq<char>)>::empty());
    assert(w01.drop_last() =~= w0);
    assert(ws.drop_last() =~= w01);
    assert(state_after_writes(fs, Seq::<(Seq<char>, Seq<char>)>::empty()) == fs);
    assert(state_after_writes(fs, w0) == fs.insert(ws[0].0, ws[0].1));
    assert(state_after_writes(fs, w01) == fs.insert(ws[0].0, ws[0].1).insert(ws[1].0, ws[1].1));
    assert(state_after_writes(fs, ws) == fs.insert(ws[0].0, ws[0].1).insert(ws[1].0, ws[1].1).insert(
        ws[2].0,
        ws[2].1,
    ));
    assert(render_sh(Seq::empty()).len() == 0 && render_fish(Seq::empty()).len() == 0);
}

/// Disabling the POSIX integration twice produces the same file
/// state as disabling it once.
pub proof fn lemma_posix_disable_idempotent(fs: Map<Seq<char>, Seq<char>>, dir: Seq<char>)
    ensures
        state_after_writes(state_after_writes(fs, posix_disable_writes(dir)), posix_disable_writes(dir))
            == state_after_writes(fs, posix_disable_writes(dir)),
{
    lemma_overwrite_idempotent(fs, posix_disable_writes(dir));
}

/// A second Windows disable, running against the manifest the first
/// one cleared, removes no registry value and rewrites the same
/// cleared manifest: the persisted state does not change.
pub proof fn lemma_windows_disable_idempotent(
    reg: Map<Seq<char>, Seq<char>>,
    fs: Map<Seq<char>, Seq<char>>,
    dir: Seq<char>,
)
    ensures
        nonempty_lines(split_lines(Seq::<char>::empty())).len() == 0,
        state_after_removes(reg, nonempty_lines(split_lines(Seq::<char>::empty()))) == reg,
        state_after_writes(
            state_after_writes(fs, seq![(manifest_path(dir), Seq::<char>::empty())]),
            seq![(manifest_path(dir), Seq::<char>::empty())],
        ) == state_after_writes(fs, seq![(manifest_path(dir), Seq::<char>::empty())]),
{
    crate::text::lemma_find_char(Seq::<char>::empty(), '\n');
    let one = seq![Seq::<char>::empty()];
    assert(split_lines(Seq::<char>::empty()) =~= one);
    assert(one.len() == 1 && one[0].len() == 0);
    assert(one.drop_first() =~= Seq::<Seq<char>>::empty());
    assert(nonempty_lines(one) =~= Seq::<Seq<char>>::empty() + nonempty_lines(one.drop_first()));
    assert(nonempty_lines(split_lines(Seq::<char>::empty())).len() == 0);
    lemma_overwrite_idempotent(fs, seq![(manifest_path(dir), Seq::<char>::empty())]);
}

/// A key is stale exactly when the previous manifest records it and
/// the new group does not bind it.
pub proof fn lemma_stale_keys_elem(
    prev: Seq<Seq<char>>,
    m: Map<Seq<char>, Seq<char>>,
    k: Seq<char>,
)
    ensures
        stale_keys(prev, m).contains(k) <==> (prev.contains(k) && !m.contains_key(k)),
    decreases prev.len(),
{
    if prev.len() > 0 {
        lemma_stale_keys_elem(prev.drop_first(), m, k);
        let head: Seq<Seq<char>> = if !m.contains_key(prev[0]) {
            seq![prev[0]]
        } else {
            Seq::empty()
        };
        let rest = stale_keys(prev.drop_first(), m);
        assert(stale_keys(prev, m) == head + rest);
        assert((head + rest).contains(k) <==> (head.contains(k) || rest.contains(k))) by {
            if (head + rest).contains(k) {
                let i = choose|i: int| 0 <= i < (head + rest).len() && (head + rest)[i] == k;
                if i < head.len() {
                    assert(head[i] == k);
                } else {
                    assert(rest[i - head.len()] == k);
                }
            }
            if head.contains(k) {
                let i = choose|i: int| 0 <= i < head.len() && head[i] == k;
                assert((head + rest)[i] == k);
            }
            if rest.contains(k) {
                let i = choose|i: int| 0 <= i < rest.len() && rest[i] == k;
                assert((head + rest)[head.len() + i] == k);
            }
        }
        assert(prev.contains(k) <==> (prev[0] == k || prev.drop_first().contains(k))) by {
            if prev.contains(k) {
                let i = choose|i: int| 0 <= i < prev.len() && prev[i] == k;
                if i > 0 {
                    assert(prev.drop_first()[i - 1] == k);
                }
            }
            if prev.drop_first().contains(k) {
                let i = choose|i: int| 0 <= i < prev.drop_first().len() && prev.drop_first()[i]
                    == k;
                assert(prev[i + 1] == k);
            }
            if prev[0] == k {
                assert(prev.contains(k));
            }
        }
        if head.len() > 0 {
            assert(head.contains(k) <==> head[0] == k) by {
                if head.contains(k) {
                    let i = choose|i: int| 0 <= i < head.len() && head[i] == k;
                    assert(i == 0);
                }
                if head[0] == k {
                    assert(head.contains(k));
                }
            }
        }
    }
}

/// A Windows apply fully overwrites the tool's registry footprint:
/// afterwards every key of the group holds its new value, every key
/// the previous manifest recorded but the group dropped is gone, and
/// every other registry value keeps the binding it had.
pub proof fn lemma_registry_apply_overwrites(
    reg: Map<Seq<char>, Seq<char>>,
    es: Seq<(Seq<char>, Seq<char>)>,
    prev: Seq<Seq<char>>,
)
    ensures
        ({
            let after = state_after_writes(
                state_after_removes(reg, stale_keys(prev, map_of_entries(es))),
                es,
            );
            &&& forall|k: Seq<char>|
                map_of_entries(es).contains_key(k) ==> #[trigger] after.contains_key(k) && after[k]
                    == map_of_entries(es)[k]
            &&& forall|k: Seq<char>|
                prev.contains(k) && !map_of_entries(es).contains_key(k) ==> !(
                #[trigger] after.contains_key(k))
            &&& forall|k: Seq<char>|
                !prev.contains(k) && !map_of_entries(es).contains_key(k) ==> (
                #[trigger] after.contains_key(k) <==> reg.contains_key(k)) && (reg.contains_key(k)
                    ==> after[k] == reg[k])
        }),
{
    let stale = stale_keys(prev, map_of_entries(es));
    let mid = state_after_removes(reg, stale);
    let after = state_after_writes(mid, es);
    assert forall|k: Seq<char>| map_of_entries(es).contains_key(k) implies #[trigger] after.contains_key(
        k,
    ) && after[k] == map_of_entries(es)[k] by {
        lemma_state_after_writes_elem(mid, es, k);
    }
    assert forall|k: Seq<char>|
        prev.contains(k) && !map_of_entries(es).contains_key(k) implies !(
    #[trigger] after.contains_key(k)) by {
        lemma_stale_keys_elem(prev, map_of_entries(es), k);
        lemma_state_after_removes_elem(reg, stale, k);
        lemma_state_after_writes_elem(mid, es, k);
    }
    assert forall|k: Seq<char>|
        !prev.contains(k) && !map_of_entries(es).contains_key(k) implies (
    #[trigger] after.contains_key(k) <==> reg.contains_key(k)) && (reg.contains_key(k) ==> after[k]
        == reg[k]) by {
        lemma_stale_keys_elem(prev, map_of_entries(es), k);
        lemma_state_after_removes_elem(reg, stale, k);
        lemma_state_after_writes_elem(mid, es, k);
    }
}

/// The Windows round trip: applying a group and then disabling with
/// the manifest that apply wrote removes exactly the group's keys
/// from the registry; every other registry value keeps the binding
/// it had before the apply.
pub proof fn lemma_registry_round_trip(
    reg: Map<Seq<char>, Seq<char>>,
    es: Seq<(Seq<char>, Seq<char>)>,
)
    requires
        forall|i: int| 0 <= i < es.len() ==> valid_key((#[trigger] es[i]).0),
    ensures
        ({
            let ks = nonempty_lines(split_lines(manifest_text(keys_of(es))));
            let after = state_after_removes(state_after_writes(reg, es), ks);
            &&& forall|k: Seq<char>| keys_of(es).contains(k) ==> !(#[trigger] after.contains_key(k))
            &&& forall|k: Seq<char>|
                !keys_of(es).contains(k) ==> (#[trigger] after.contains_key(k)
                    <==> reg.contains_key(k)) && (reg.contains_key(k) ==> after[k] == reg[k])
        }),
{
    assert forall|i: int| 0 <= i < keys_of(es).len() implies valid_key(
        #[trigger] keys_of(es)[i],
    ) by {
        assert(keys_of(es)[i] == es[i].0);
    }
    lemma_manifest_round_trip(keys_of(es));
    let ks = nonempty_lines(split_lines(manifest_text(keys_of(es))));
    assert(ks == keys_of(es));
    let mid = state_after_writes(reg, es);
    let after = state_after_removes(mid, ks);
    assert forall|k: Seq<char>| keys_of(es).contains(k) implies !(#[trigger] after.contains_key(
        k,
    )) by {
        lemma_state_after_removes_elem(mid, ks, k);
    }
    assert forall|k: Seq<char>| !keys_of(es).contains(k) implies (#[trigger] after.contains_key(k)
        <==> reg.contains_key(k)) && (reg.contains_key(k) ==> after[k] == reg[k]) by {
        lemma_state_after_removes_elem(mid, ks, k);
        lemma_state_after_writes_elem(reg, es, k);
        lemma_map_of_entries_keys(es, k);
    }
}

} // verus!
