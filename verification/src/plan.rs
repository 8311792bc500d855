//! Persistence planning: what `apply` and `disable` write for each
//! platform. A plan lists the file contents to overwrite and the
//! registry values to set or remove; executing the I/O is the
//! caller's concern, so every decision here is checked.

use vstd::prelude::*;

use crate::parse::EnvEntry;
use crate::parse::ParseError;
use crate::parse::ParsedGroup;
use crate::parse::entries_of_lines;
use crate::parse::first_bad_line;
use crate::parse::map_of_entries;
use crate::parse::map_of_lines;
use crate::parse::parse_dotenv_like;
use crate::render::keys_of;
use crate::render::manifest_text;
use crate::render::nonempty_lines;
use crate::render::render_fish;
use crate::render::render_fish_file;
use crate::render::render_manifest;
use crate::render::render_sh;
use crate::render::render_sh_file;
use crate::render::parse_manifest;
use crate::text::push_char;
use crate::text::split_lines;
use crate::text::valid_key;

verus! {

/// The platform a plan targets, selected at startup by runtime OS
/// detection.
#[derive(Clone, Copy)]
pub enum Platform {
    Posix,
    Windows,
}

/// One file to overwrite in full with the given content.
pub struct FileWrite {
    pub path: String,
    pub content: String,
}

/// What an operation touched: the keys written or removed, the file
/// paths involved, the persistence scope, and a note on how the
/// changes propagate, for user-facing confirmation.
pub struct ApplyResponse {
    pub keys: Vec<String>,
    pub paths: Vec<String>,
    pub scope: String,
    pub note: String,
}

/// The persistence plan of an `apply`: files to overwrite, registry
/// values to set, and stale registry values to remove, so that apply
/// is a full overwrite of this tool's persisted state on every
/// platform, not a merge.
pub struct ApplyPlan {
    pub writes: Vec<FileWrite>,
    pub registry_sets: Vec<EnvEntry>,
    pub registry_removes: Vec<String>,
    pub response: ApplyResponse,
}

/// The persistence plan of a `disable`: files to overwrite and
/// registry values to remove.
pub struct DisablePlan {
    pub writes: Vec<FileWrite>,
    pub registry_removes: Vec<String>,
    pub response: ApplyResponse,
}

/// File writes as (path, content) pairs.
pub open spec fn writes_view(ws: Seq<FileWrite>) -> Seq<(Seq<char>, Seq<char>)> {
    ws.map_values(|w: FileWrite| (w.path@, w.content@))
}

/// Registry sets as (key, value) pairs.
pub open spec fn entries_view(es: Seq<EnvEntry>) -> Seq<(Seq<char>, Seq<char>)> {
    es.map_values(|e: EnvEntry| (e.key@, e.value@))
}

/// Owned strings as character sequences.
pub open spec fn strings_view(ss: Seq<String>) -> Seq<Seq<char>> {
    ss.map_values(|s: String| s@)
}

/// `dir`/`name`, with a forward-slash separator.
pub open spec fn joined(dir: Seq<char>, name: Seq<char>) -> Seq<char> {
    dir + seq!['/'] + name
}

/// The integration directory under a POSIX home directory.
pub open spec fn posix_config_dir(home: Seq<char>) -> Seq<char> {
    home + "/.config/ev"@
}

/// The integration directory under the OS config-base directory.
pub open spec fn windows_config_dir(base: Seq<char>) -> Seq<char> {
    base + "/ev"@
}

/// The three POSIX integration file paths, in a fixed order.
pub open spec fn posix_paths(dir: Seq<char>) -> Seq<Seq<char>> {
    seq![joined(dir, "ev.sh"@), joined(dir, "ev.zsh"@), joined(dir, "ev.fish"@)]
}

/// The path of the manifest recording the keys set in the registry.
pub open spec fn manifest_path(dir: Seq<char>) -> Seq<char> {
    joined(dir, "ev.keys"@)
}

/// The file writes of a POSIX apply: each integration file fully
/// overwritten with the current group's export statements.
pub open spec fn posix_apply_writes(dir: Seq<char>, es: Seq<(Seq<char>, Seq<char>)>) -> Seq<
    (Seq<char>, Seq<char>),
> {
    seq![
        (joined(dir, "ev.sh"@), render_sh(es)),
        (joined(dir, "ev.zsh"@), render_sh(es)),
        (joined(dir, "ev.fish"@), render_fish(es)),
    ]
}

/// The file writes of a POSIX disable: each integration file
/// overwritten with empty content.
pub open spec fn posix_disable_writes(dir: Seq<char>) -> Seq<(Seq<char>, Seq<char>)> {
    seq![
        (joined(dir, "ev.sh"@), Seq::<char>::empty()),
        (joined(dir, "ev.zsh"@), Seq::<char>::empty()),
        (joined(dir, "ev.fish"@), Seq::<char>::empty()),
    ]
}

/// The keys among `prev` that `m` no longer binds: what a full
/// overwrite must remove from the registry.
pub open spec fn stale_keys(prev: Seq<Seq<char>>, m: Map<Seq<char>, Seq<char>>) -> Seq<Seq<char>>
    decreases prev.len(),
{
    if prev.len() == 0 {
        Seq::empty()
    } else {
        (if !m.contains_key(prev[0]) {
            seq![prev[0]]
        } else {
            Seq::empty()
        }) + stale_keys(prev.drop_first(), m)
    }
}

/// The propagation note of every POSIX response.
pub open spec fn posix_note() -> Seq<char> {
    "Changes take effect in new shells that source the integration files."@
}

/// The propagation note of every Windows response.
pub open spec fn windows_note() -> Seq<char> {
    "Changes apply to per-user (HKCU) environment values and reach new processes/terminals only."@
}

/// What a POSIX response must hold besides its keys and paths.
pub open spec fn posix_response_tagged(r: ApplyResponse) -> bool {
    &&& r.scope@ == "posix-shell-files"@
    &&& r.note@ == posix_note()
}

/// What a Windows response must hold besides its keys and paths.
pub open spec fn windows_response_tagged(r: ApplyResponse) -> bool {
    &&& r.scope@ == "windows-user-registry"@
    &&& r.note@ == windows_note()
}

/// What a POSIX apply plan must hold for directory `dir` and entries `es`.
pub open spec fn posix_apply_plan_matches(
    p: ApplyPlan,
    dir: Seq<char>,
    es: Seq<(Seq<char>, Seq<char>)>,
) -> bool {
    &&& writes_view(p.writes@) == posix_apply_writes(dir, es)
    &&& p.registry_sets@.len() == 0
    &&& p.registry_removes@.len() == 0
    &&& strings_view(p.response.keys@) == keys_of(es)
    &&& strings_view(p.response.paths@) == posix_paths(dir)
    &&& posix_response_tagged(p.response)
}

/// What a Windows apply plan must hold for directory `dir`, entries
/// `es` and previously recorded keys `prev`.
pub open spec fn windows_apply_plan_matches(
    p: ApplyPlan,
    dir: Seq<char>,
    es: Seq<(Seq<char>, Seq<char>)>,
    prev: Seq<Seq<char>>,
) -> bool {
    &&& writes_view(p.writes@) == seq![(manifest_path(dir), manifest_text(keys_of(es)))]
    &&& entries_view(p.registry_sets@) == es
    &&& strings_view(p.registry_removes@) == stale_keys(prev, map_of_entries(es))
    &&& strings_view(p.response.keys@) == keys_of(es)
    &&& strings_view(p.response.paths@) == seq![manifest_path(dir)]
    &&& windows_response_tagged(p.response)
}

/// `dir`/`name` as an owned path string.
pub fn join_path(dir: &str, name: &str) -> (r: String)
    ensures
        r@ == joined(dir@, name@),
{
    let mut s = String::from_str(dir);
    push_char(&mut s, '/');
    s.append(name);
    proof {
        assert(s@ =~= joined(dir@, name@));
    }
    s
}

/// The integration directory for a POSIX home directory.
pub fn config_dir_from_home(home: &str) -> (r: String)
    ensures
        r@ == posix_config_dir(home@),
{
    let mut s = String::from_str(home);
    s.append("/.config/ev");
    s
}

/// The integration directory for the OS config-base directory.
pub fn config_dir_from_base(base: &str) -> (r: String)
    ensures
        r@ == windows_config_dir(base@),
{
    let mut s = String::from_str(base);
    s.append("/ev");
    s
}

/// The group's keys as owned strings, in entry order.
fn keys_vec(g: &ParsedGroup) -> (r: Vec<String>)
    ensures
        strings_view(r@) =~= keys_of(g.seq_view()),
{
    let mut out: Vec<String> = Vec::new();
    let n = g.entries.len();
    let mut k: usize = 0;
    while k < n
        invariant
            n == g.entries@.len(),
            0 <= k <= n,
            strings_view(out@) =~= keys_of(g.seq_view()).subrange(0, k as int),
        decreases n - k,
    {
        let ghost prev = out@;
        out.push(String::from_str(g.entries[k].key.as_str()));
        proof {
            assert(keys_of(g.seq_view())[k as int] == g.entries@[k as int].key@);
            assert(strings_view(out@) =~= strings_view(prev).push(g.entries@[k as int].key@));
            assert(strings_view(out@) =~= keys_of(g.seq_view()).subrange(0, k as int + 1));
        }
        k = k + 1;
    }
    proof {
        assert(keys_of(g.seq_view()).subrange(0, n as int) =~= keys_of(g.seq_view()));
    }
    out
}

/// The POSIX apply plan: overwrite the three integration files with
/// the group's export statements.
pub fn posix_apply_plan(dir: &str, g: &ParsedGroup) -> (r: ApplyPlan)
    ensures
        posix_apply_plan_matches(r, dir@, g.seq_view()),
{
    let sh = render_sh_file(g);
    let zsh = render_sh_file(g);
    let fish = render_fish_file(g);
    let mut writes: Vec<FileWrite> = Vec::new();
    writes.push(FileWrite { path: join_path(dir, "ev.sh"), content: sh });
    writes.push(FileWrite { path: join_path(dir, "ev.zsh"), content: zsh });
    writes.push(FileWrite { path: join_path(dir, "ev.fish"), content: fish });
    let mut paths: Vec<String> = Vec::new();
    paths.push(join_path(dir, "ev.sh"));
    paths.push(join_path(dir, "ev.zsh"));
    paths.push(join_path(dir, "ev.fish"));
    let response = ApplyResponse {
        keys: keys_vec(g),
        paths,
        scope: String::from_str("posix-shell-files"),
        note: String::from_str(
            "Changes take effect in new shells that source the integration files.",
        ),
    };
    let r = ApplyPlan {
        writes,
        registry_sets: Vec::new(),
        registry_removes: Vec::new(),
        response,
    };
    proof {
        assert(writes_view(r.writes@) =~= posix_apply_writes(dir@, g.seq_view()));
        assert(strings_view(r.response.paths@) =~= posix_paths(dir@));
    }
    r
}

/// The POSIX disable plan: overwrite the three integration files
/// with empty content, so newly sourced shells export nothing.
pub fn posix_disable_plan(dir: &str) -> (r: DisablePlan)
    ensures
        writes_view(r.writes@) == posix_disable_writes(dir@),
        r.registry_removes@.len() == 0,
        r.response.keys@.len() == 0,
        strings_view(r.response.paths@) == posix_paths(dir@),
        posix_response_tagged(r.response),
{
    let mut writes: Vec<FileWrite> = Vec::new();
    writes.push(FileWrite { path: join_path(dir, "ev.sh"), content: String::new() });
    writes.push(FileWrite { path: join_path(dir, "ev.zsh"), content: String::new() });
    writes.push(FileWrite { path: join_path(dir, "ev.fish"), content: String::new() });
    let mut paths: Vec<String> = Vec::new();
    paths.push(join_path(dir, "ev.sh"));
    paths.push(join_path(dir, "ev.zsh"));
    paths.push(join_path(dir, "ev.fish"));
    let response = ApplyResponse {
        keys: Vec::new(),
        paths,
        scope: String::from_str("posix-shell-files"),
        note: String::from_str(
            "Changes take effect in new shells that source the integration files.",
        ),
    };
    let r = DisablePlan { writes, registry_removes: Vec::new(), response };
    proof {
        assert(writes_view(r.writes@) =~= posix_disable_writes(dir@));
        assert(strings_view(r.response.paths@) =~= posix_paths(dir@));
    }
    r
}

/// The keys the previous manifest records that `g` no longer binds.
fn stale_keys_vec(g: &ParsedGroup, prev: &Vec<String>) -> (r: Vec<String>)
    requires
        g.wf(),
    ensures
        strings_view(r@) =~= stale_keys(strings_view(prev@), g.map_view()),
{
    let mut out: Vec<String> = Vec::new();
    let n = prev.len();
    let mut k: usize = 0;
    let ghost ks = strings_view(prev@);
    proof {
        assert(ks.skip(0) =~= ks);
        assert(strings_view(out@) =~= Seq::<Seq<char>>::empty());
    }
    while k < n
        invariant
            g.wf(),
            n == prev@.len(),
            ks == strings_view(prev@),
            0 <= k <= n,
            stale_keys(ks, g.map_view()) =~= strings_view(out@) + stale_keys(
                ks.skip(k as int),
                g.map_view(),
            ),
        decreases n - k,
    {
        let ghost tail = ks.skip(k as int);
        proof {
            assert(tail[0] == ks[k as int]);
            assert(tail.drop_first() =~= ks.skip(k as int + 1));
            assert(ks[k as int] == prev@[k as int]@);
        }
        if g.get(prev[k].as_str()).is_none() {
            let ghost before = out@;
            out.push(String::from_str(prev[k].as_str()));
            proof {
                assert(strings_view(out@) =~= strings_view(before).push(prev@[k as int]@));
                assert(stale_keys(tail, g.map_view()) =~= seq![ks[k as int]] + stale_keys(
                    ks.skip(k as int + 1),
                    g.map_view(),
                ));
            }
        } else {
            proof {
                assert(stale_keys(tail, g.map_view()) =~= stale_keys(
                    ks.skip(k as int + 1),
                    g.map_view(),
                ));
            }
        }
        k = k + 1;
    }
    proof {
        assert(ks.skip(n as int) =~= Seq::<Seq<char>>::empty());
    }
    out
}

/// The Windows apply plan: set each key as a per-user registry
/// value, remove the values the previous manifest records that the
/// group no longer binds, and record the written keys in the
/// manifest file — a full overwrite of this tool's persisted state,
/// not a merge. Registry values this tool never wrote are not
/// touched.
pub fn windows_apply_plan(dir: &str, g: &ParsedGroup, prev_manifest: Option<&str>) -> (r: ApplyPlan)
    requires
        g.wf(),
    ensures
        windows_apply_plan_matches(
            r,
            dir@,
            g.seq_view(),
            match prev_manifest {
                Some(m) => nonempty_lines(split_lines(m@)),
                None => Seq::<Seq<char>>::empty(),
            },
        ),
{
    let prev: Vec<String> = match prev_manifest {
        Some(m) => parse_manifest(m),
        None => Vec::new(),
    };
    let removes = stale_keys_vec(g, &prev);
    let manifest = render_manifest(g);
    let mut writes: Vec<FileWrite> = Vec::new();
    writes.push(FileWrite { path: join_path(dir, "ev.keys"), content: manifest });
    let mut sets: Vec<EnvEntry> = Vec::new();
    let n = g.entries.len();
    let mut k: usize = 0;
    while k < n
        invariant
            n == g.entries@.len(),
            0 <= k <= n,
            entries_view(sets@) =~= g.seq_view().subrange(0, k as int),
        decreases n - k,
    {
        let ghost prev = sets@;
        sets.push(
            EnvEntry {
                key: String::from_str(g.entries[k].key.as_str()),
                value: String::from_str(g.entries[k].value.as_str()),
            },
        );
        proof {
            assert(g.seq_view()[k as int] == (g.entries@[k as int].key@, g.entries@[k as int].value@));
            assert(entries_view(sets@) =~= entries_view(prev).push(
                (g.entries@[k as int].key@, g.entries@[k as int].value@),
            ));
            assert(entries_view(sets@) =~= g.seq_view().subrange(0, k as int + 1));
        }
        k = k + 1;
    }
    let mut paths: Vec<String> = Vec::new();
    paths.push(join_path(dir, "ev.keys"));
    let response = ApplyResponse {
        keys: keys_vec(g),
        paths,
        scope: String::from_str("windows-user-registry"),
        note: String::from_str(
            "Changes apply to per-user (HKCU) environment values and reach new processes/terminals only.",
        ),
    };
    let r = ApplyPlan { writes, registry_sets: sets, registry_removes: removes, response };
    proof {
        assert(g.seq_view().subrange(0, n as int) =~= g.seq_view());
        assert(writes_view(r.writes@) =~= seq![
            (manifest_path(dir@), manifest_text(keys_of(g.seq_view()))),
        ]);
        assert(strings_view(r.response.paths@) =~= seq![manifest_path(dir@)]);
    }
    r
}

/// The Windows disable plan: remove every registry value the
/// manifest records and clear the manifest; with no manifest the
/// plan is a no-op.
pub fn windows_disable_plan(dir: &str, manifest: Option<&str>) -> (r: DisablePlan)
    ensures
        match manifest {
            Some(m) => {
                &&& strings_view(r.registry_removes@) == nonempty_lines(split_lines(m@))
                &&& writes_view(r.writes@) == seq![(manifest_path(dir@), Seq::<char>::empty())]
                &&& strings_view(r.response.keys@) == nonempty_lines(split_lines(m@))
                &&& strings_view(r.response.paths@) == seq![manifest_path(dir@)]
            },
            None => {
                &&& r.registry_removes@.len() == 0
                &&& r.writes@.len() == 0
                &&& r.response.keys@.len() == 0
                &&& r.response.paths@.len() == 0
            },
        },
        windows_response_tagged(r.response),
{
    match manifest {
        Some(m) => {
            let removes = parse_manifest(m);
            let keys = parse_manifest(m);
            let mut writes: Vec<FileWrite> = Vec::new();
            writes.push(FileWrite { path: join_path(dir, "ev.keys"), content: String::new() });
            let mut paths: Vec<String> = Vec::new();
            paths.push(join_path(dir, "ev.keys"));
            let response = ApplyResponse {
                keys,
                paths,
                scope: String::from_str("windows-user-registry"),
                note: String::from_str(
                    "Changes apply to per-user (HKCU) environment values and reach new processes/terminals only.",
                ),
            };
            let r = DisablePlan { writes, registry_removes: removes, response };
            proof {
                assert(writes_view(r.writes@) =~= seq![
                    (manifest_path(dir@), Seq::<char>::empty()),
                ]);
                assert(strings_view(r.response.paths@) =~= seq![manifest_path(dir@)]);
            }
            r
        },
        None => {
            let response = ApplyResponse {
                keys: Vec::new(),
                paths: Vec::new(),
                scope: String::from_str("windows-user-registry"),
                note: String::from_str(
                    "Changes apply to per-user (HKCU) environment values and reach new processes/terminals only.",
                ),
            };
            DisablePlan { writes: Vec::new(), registry_removes: Vec::new(), response }
        },
    }
}

/// Read-only descriptor of the integration paths and, on POSIX, the
/// exact source lines a user adds to their shell startup file.
pub struct IntegrationInfo {
    pub config_dir: String,
    pub ev_dir: String,
    pub reveal_target: String,
    pub source_zsh: Option<String>,
    pub source_bash: Option<String>,
    pub source_fish: Option<String>,
    pub note: String,
}

/// The line a user adds to source one integration file.
pub open spec fn source_line(ev_dir: Seq<char>, file: Seq<char>) -> Seq<char> {
    "source \""@ + ev_dir + seq!['/'] + file + "\""@
}

/// `source "EV_DIR/FILE"` as an owned string.
fn source_line_str(ev_dir: &str, file: &str) -> (r: String)
    ensures
        r@ == source_line(ev_dir@, file@),
{
    let mut s = String::from_str("source \"");
    s.append(ev_dir);
    push_char(&mut s, '/');
    s.append(file);
    s.append("\"");
    proof {
        assert(s@ =~= source_line(ev_dir@, file@));
    }
    s
}

/// Describe the integration for the platform, given the base
/// directory the OS resolved (the home directory on POSIX, the
/// config-base directory on Windows). The reveal target is a stable
/// marker file inside the integration directory; the caller is
/// expected to create the directory and the marker so that a
/// "reveal in file manager" action has an existing target.
pub fn integration_info(platform: Platform, base_dir: &str) -> (r: IntegrationInfo)
    ensures
        r.config_dir@ == base_dir@,
        r.ev_dir@ == match platform {
            Platform::Posix => posix_config_dir(base_dir@),
            Platform::Windows => windows_config_dir(base_dir@),
        },
        r.reveal_target@ == joined(r.ev_dir@, ".keep"@),
        match platform {
            Platform::Posix => {
                &&& r.source_zsh is Some && r.source_zsh->Some_0@ == source_line(
                    r.ev_dir@,
                    "ev.zsh"@,
                )
                &&& r.source_bash is Some && r.source_bash->Some_0@ == source_line(
                    r.ev_dir@,
                    "ev.sh"@,
                )
                &&& r.source_fish is Some && r.source_fish->Some_0@ == source_line(
                    r.ev_dir@,
                    "ev.fish"@,
                )
                &&& r.note@
                    == "macOS/Linux uses shell integration files. Add the source line to your shell rc and reload, or open a new terminal."@
            },
            Platform::Windows => {
                &&& r.source_zsh is None
                &&& r.source_bash is None
                &&& r.source_fish is None
                &&& r.note@
                    == "Windows uses user-level environment variables (HKCU). New terminals/apps will pick up updates."@
            },
        },
{
    match platform {
        Platform::Posix => {
            let ev_dir = config_dir_from_home(base_dir);
            let reveal_target = join_path(ev_dir.as_str(), ".keep");
            IntegrationInfo {
                config_dir: String::from_str(base_dir),
                reveal_target,
                source_zsh: Some(source_line_str(ev_dir.as_str(), "ev.zsh")),
                source_bash: Some(source_line_str(ev_dir.as_str(), "ev.sh")),
                source_fish: Some(source_line_str(ev_dir.as_str(), "ev.fish")),
                note: String::from_str(
                    "macOS/Linux uses shell integration files. Add the source line to your shell rc and reload, or open a new terminal.",
                ),
                ev_dir,
            }
        },
        Platform::Windows => {
            let ev_dir = config_dir_from_base(base_dir);
            let reveal_target = join_path(ev_dir.as_str(), ".keep");
            IntegrationInfo {
                config_dir: String::from_str(base_dir),
                reveal_target,
                source_zsh: None,
                source_bash: None,
                source_fish: None,
                note: String::from_str(
                    "Windows uses user-level environment variables (HKCU). New terminals/apps will pick up updates.",
                ),
                ev_dir,
            }
        },
    }
}

/// Parse `content` and plan its application for the platform. On
/// Windows the previous manifest, if the caller found one, makes the
/// apply a full overwrite: values it records that the new group no
/// longer binds are removed.
///
/// The group id is accepted but not yet used to scope persistence:
/// the tool keeps a single active group per machine.
pub fn apply_group(
    platform: Platform,
    dir: &str,
    group_id: &str,
    content: &str,
    prev_manifest: Option<&str>,
) -> (r: Result<ApplyPlan, ParseError>)
    ensures
        match r {
            Ok(p) => {
                let es = entries_of_lines(split_lines(content@));
                &&& first_bad_line(split_lines(content@)) is None
                &&& map_of_entries(es) == map_of_lines(split_lines(content@))
                &&& forall|i: int| 0 <= i < es.len() ==> valid_key((#[trigger] es[i]).0)
                &&& match platform {
                    Platform::Posix => posix_apply_plan_matches(p, dir@, es),
                    Platform::Windows => windows_apply_plan_matches(
                        p,
                        dir@,
                        es,
                        match prev_manifest {
                            Some(m) => nonempty_lines(split_lines(m@)),
                            None => Seq::<Seq<char>>::empty(),
                        },
                    ),
                }
            },
            Err(e) => {
                let ParseError::InvalidKey { line, content: c } = e;
                match first_bad_line(split_lines(content@)) {
                    Some(j) => line == j + 1 && c@ == split_lines(content@)[j],
                    None => false,
                }
            },
        },
{
    let _ = group_id;
    let g = match parse_dotenv_like(content) {
        Ok(g) => g,
        Err(e) => {
            return Err(e);
        },
    };
    let plan = match platform {
        Platform::Posix => posix_apply_plan(dir, &g),
        Platform::Windows => windows_apply_plan(dir, &g, prev_manifest),
    };
    proof {
        let es = g.seq_view();
        assert(es == entries_of_lines(split_lines(content@)));
        assert(map_of_entries(es) == map_of_lines(split_lines(content@)));
        assert forall|i: int| 0 <= i < es.len() implies valid_key((#[trigger] es[i]).0) by {
            assert(es[i].0 == g.entries@[i].key@);
        }
    }
    Ok(plan)
}

/// Plan the deactivation of the integration for the platform. On
/// POSIX the integration files are cleared; on Windows the values
/// recorded in the manifest (handed in by the caller, if present)
/// are removed and the manifest is cleared.
pub fn disable_group(platform: Platform, dir: &str, manifest: Option<&str>) -> (r: DisablePlan)
    ensures
        match platform {
            Platform::Posix => {
                &&& writes_view(r.writes@) == posix_disable_writes(dir@)
                &&& r.registry_removes@.len() == 0
                &&& r.response.keys@.len() == 0
                &&& strings_view(r.response.paths@) == posix_paths(dir@)
                &&& posix_response_tagged(r.response)
            },
            Platform::Windows => {
                &&& match manifest {
                    Some(m) => {
                        &&& strings_view(r.registry_removes@) == nonempty_lines(split_lines(m@))
                        &&& writes_view(r.writes@) == seq![
                            (manifest_path(dir@), Seq::<char>::empty()),
                        ]
                        &&& strings_view(r.response.keys@) == nonempty_lines(split_lines(m@))
                        &&& strings_view(r.response.paths@) == seq![manifest_path(dir@)]
                    },
                    None => {
                        &&& r.registry_removes@.len() == 0
                        &&& r.writes@.len() == 0
                        &&& r.response.keys@.len() == 0
                        &&& r.response.paths@.len() == 0
                    },
                }
                &&& windows_response_tagged(r.response)
            },
        },
{
    match platform {
        Platform::Posix => posix_disable_plan(dir),
        Platform::Windows => windows_disable_plan(dir, manifest),
    }
}

} // verus!
