use ev_core::parse::{parse_dotenv_like, ParsedGroup};
use ev_core::plan::{
    apply_group, config_dir_from_base, config_dir_from_home, disable_group, integration_info,
    join_path, posix_apply_plan, posix_disable_plan, windows_apply_plan, windows_disable_plan,
    Platform,
};
use ev_core::render::{render_fish_file, render_manifest, render_sh_file, parse_manifest};
use std::collections::HashMap;

fn group(text: &str) -> ParsedGroup {
    parse_dotenv_like(text).expect("test input should parse")
}

#[test]
fn paths_are_joined_with_a_slash() {
    assert_eq!(join_path("/home/u/.config/ev", "ev.sh"), "/home/u/.config/ev/ev.sh");
    assert_eq!(config_dir_from_home("/home/u"), "/home/u/.config/ev");
    assert_eq!(config_dir_from_base("C:/Users/u/AppData/Roaming"), "C:/Users/u/AppData/Roaming/ev");
}

#[test]
fn sh_render_exact_line() {
    let g = group("X=1\n");
    assert_eq!(render_sh_file(&g), "export X=\"1\"\n");
    assert_eq!(render_fish_file(&g), "set -gx X \"1\"\n");
}

#[test]
fn sh_render_escapes_specials() {
    let mut g = ParsedGroup::new();
    g.set(String::from("K"), String::from("a\"b$c\\d`e"));
    assert_eq!(render_sh_file(&g), "export K=\"a\\\"b\\$c\\\\d\\`e\"\n");
    // fish leaves the backtick alone
    assert_eq!(render_fish_file(&g), "set -gx K \"a\\\"b\\$c\\\\d`e\"\n");
}

#[test]
fn posix_apply_plan_writes_three_files() {
    let g = group("X=1\n");
    let p = posix_apply_plan("/cfg", &g);
    assert_eq!(p.writes.len(), 3);
    assert_eq!(p.writes[0].path, "/cfg/ev.sh");
    assert_eq!(p.writes[0].content, "export X=\"1\"\n");
    assert_eq!(p.writes[1].path, "/cfg/ev.zsh");
    assert_eq!(p.writes[1].content, "export X=\"1\"\n");
    assert_eq!(p.writes[2].path, "/cfg/ev.fish");
    assert_eq!(p.writes[2].content, "set -gx X \"1\"\n");
    assert!(p.registry_sets.is_empty());
    assert_eq!(p.response.keys, vec![String::from("X")]);
    assert_eq!(p.response.scope, "posix-shell-files");
    assert_eq!(
        p.response.note,
        "Changes take effect in new shells that source the integration files."
    );
}

#[test]
fn posix_reapply_with_empty_group_removes_lines() {
    let g = group("");
    let p = posix_apply_plan("/cfg", &g);
    assert_eq!(p.writes[0].content, "");
    assert_eq!(p.writes[1].content, "");
    assert_eq!(p.writes[2].content, "");
    assert!(p.response.keys.is_empty());
}

#[test]
fn posix_disable_clears_all_three_files() {
    let p = posix_disable_plan("/cfg");
    assert_eq!(p.writes.len(), 3);
    for w in &p.writes {
        assert_eq!(w.content, "");
    }
    assert_eq!(p.writes[0].path, "/cfg/ev.sh");
    assert_eq!(p.writes[1].path, "/cfg/ev.zsh");
    assert_eq!(p.writes[2].path, "/cfg/ev.fish");
    assert!(p.registry_removes.is_empty());
}

#[test]
fn disable_twice_produces_identical_plans() {
    // The plan is a pure function of the directory, and overwriting
    // the same contents twice leaves the same files: the second
    // disable changes nothing.
    let p1 = posix_disable_plan("/cfg");
    let p2 = posix_disable_plan("/cfg");
    assert_eq!(p1.writes.len(), p2.writes.len());
    for (a, b) in p1.writes.iter().zip(p2.writes.iter()) {
        assert_eq!(a.path, b.path);
        assert_eq!(a.content, b.content);
    }
}

#[test]
fn manifest_round_trips() {
    let g = group("A=1\nB=2\n");
    let m = render_manifest(&g);
    assert_eq!(m, "A\nB\n");
    let keys = parse_manifest(&m);
    assert_eq!(keys, vec![String::from("A"), String::from("B")]);
}

#[test]
fn windows_apply_sets_values_and_records_manifest() {
    let g = group("X=1\n");
    let p = windows_apply_plan("/cfg", &g, None);
    assert_eq!(p.registry_sets.len(), 1);
    assert_eq!(p.registry_sets[0].key, "X");
    assert_eq!(p.registry_sets[0].value, "1");
    assert!(p.registry_removes.is_empty());
    assert_eq!(p.writes.len(), 1);
    assert_eq!(p.writes[0].path, "/cfg/ev.keys");
    assert_eq!(p.writes[0].content, "X\n");
    assert_eq!(p.response.scope, "windows-user-registry");
    assert_eq!(
        p.response.note,
        "Changes apply to per-user (HKCU) environment values and reach new processes/terminals only."
    );
}

#[test]
fn windows_apply_removes_stale_recorded_keys() {
    // OLD was recorded by a previous apply but the new group no
    // longer binds it: a full overwrite removes it. KEPT stays set.
    let g = group("KEPT=2\nNEW=3\n");
    let p = windows_apply_plan("/cfg", &g, Some("OLD\nKEPT\n"));
    assert_eq!(p.registry_removes, vec![String::from("OLD")]);
    assert_eq!(p.registry_sets.len(), 2);
    assert_eq!(p.writes[0].content, "KEPT\nNEW\n");
}

#[test]
fn windows_disable_removes_recorded_keys_only() {
    let p = windows_disable_plan("/cfg", Some("X\n"));
    assert_eq!(p.registry_removes, vec![String::from("X")]);
    assert_eq!(p.writes.len(), 1);
    assert_eq!(p.writes[0].path, "/cfg/ev.keys");
    assert_eq!(p.writes[0].content, "");
}

#[test]
fn windows_disable_without_manifest_is_a_no_op() {
    let p = windows_disable_plan("/cfg", None);
    assert!(p.registry_removes.is_empty());
    assert!(p.writes.is_empty());
}

#[test]
fn windows_round_trip_on_a_registry_model() {
    let mut reg: HashMap<String, String> = HashMap::new();
    reg.insert(String::from("PRE"), String::from("kept"));

    let g = group("X=1\n");
    let apply = windows_apply_plan("/cfg", &g, None);
    for e in &apply.registry_sets {
        reg.insert(e.key.clone(), e.value.clone());
    }
    assert_eq!(reg.get("X").map(String::as_str), Some("1"));

    let manifest = apply.writes[0].content.clone();
    let disable = windows_disable_plan("/cfg", Some(manifest.as_str()));
    for k in &disable.registry_removes {
        reg.remove(k);
    }
    assert!(reg.get("X").is_none());
    assert_eq!(reg.get("PRE").map(String::as_str), Some("kept"));
}

#[test]
fn windows_reapply_overwrites_on_a_registry_model() {
    let mut reg: HashMap<String, String> = HashMap::new();
    reg.insert(String::from("PRE"), String::from("kept"));

    let g1 = group("OLD=1\nKEPT=1\n");
    let a1 = windows_apply_plan("/cfg", &g1, None);
    for k in &a1.registry_removes {
        reg.remove(k);
    }
    for e in &a1.registry_sets {
        reg.insert(e.key.clone(), e.value.clone());
    }
    let m1 = a1.writes[0].content.clone();
    assert_eq!(m1, "OLD\nKEPT\n");

    let g2 = group("KEPT=2\nNEW=3\n");
    let a2 = windows_apply_plan("/cfg", &g2, Some(m1.as_str()));
    for k in &a2.registry_removes {
        reg.remove(k);
    }
    for e in &a2.registry_sets {
        reg.insert(e.key.clone(), e.value.clone());
    }
    assert!(reg.get("OLD").is_none());
    assert_eq!(reg.get("KEPT").map(String::as_str), Some("2"));
    assert_eq!(reg.get("NEW").map(String::as_str), Some("3"));
    assert_eq!(reg.get("PRE").map(String::as_str), Some("kept"));
}

#[test]
fn facade_apply_posix() {
    let p = apply_group(Platform::Posix, "/cfg", "default", "X=1\n", None).expect("should parse");
    assert_eq!(p.writes.len(), 3);
    assert_eq!(p.writes[0].content, "export X=\"1\"\n");
}

#[test]
fn facade_apply_reports_parse_error() {
    let e = apply_group(Platform::Windows, "/cfg", "default", "A=1\n9=x\n", None);
    match e {
        Ok(_) => panic!("expected a parse error"),
        Err(ev_core::parse::ParseError::InvalidKey { line, content }) => {
            assert_eq!(line, 2);
            assert_eq!(content, "9=x");
        }
    }
}

#[test]
fn facade_disable_dispatches_per_platform() {
    let posix = disable_group(Platform::Posix, "/cfg", None);
    assert_eq!(posix.writes.len(), 3);
    assert!(posix.response.keys.is_empty());
    assert_eq!(posix.response.scope, "posix-shell-files");
    let win = disable_group(Platform::Windows, "/cfg", Some("A\n"));
    assert_eq!(win.registry_removes, vec![String::from("A")]);
    assert_eq!(win.response.keys, vec![String::from("A")]);
    assert_eq!(win.response.scope, "windows-user-registry");
}

#[test]
fn facade_results_are_deterministic_in_content() {
    // The group id does not scope persistence yet: two applies with
    // different ids and the same content produce equal plans and
    // responses in every field.
    let a = apply_group(Platform::Posix, "/cfg", "one", "X=1\n", None).expect("should parse");
    let b = apply_group(Platform::Posix, "/cfg", "two", "X=1\n", None).expect("should parse");
    assert_eq!(a.writes.len(), b.writes.len());
    for (wa, wb) in a.writes.iter().zip(b.writes.iter()) {
        assert_eq!(wa.path, wb.path);
        assert_eq!(wa.content, wb.content);
    }
    assert_eq!(a.response.keys, b.response.keys);
    assert_eq!(a.response.paths, b.response.paths);
    assert_eq!(a.response.scope, b.response.scope);
    assert_eq!(a.response.note, b.response.note);
}

#[test]
fn integration_info_posix_paths_and_source_lines() {
    let info = integration_info(Platform::Posix, "/home/u");
    assert_eq!(info.config_dir, "/home/u");
    assert_eq!(info.ev_dir, "/home/u/.config/ev");
    assert_eq!(info.reveal_target, "/home/u/.config/ev/.keep");
    assert_eq!(info.source_bash.as_deref(), Some("source \"/home/u/.config/ev/ev.sh\""));
    assert_eq!(info.source_zsh.as_deref(), Some("source \"/home/u/.config/ev/ev.zsh\""));
    assert_eq!(info.source_fish.as_deref(), Some("source \"/home/u/.config/ev/ev.fish\""));
    assert_eq!(
        info.note,
        "macOS/Linux uses shell integration files. Add the source line to your shell rc and reload, or open a new terminal."
    );
}

#[test]
fn integration_info_windows_has_no_source_lines() {
    let info = integration_info(Platform::Windows, "C:/Users/u/AppData/Roaming");
    assert_eq!(info.ev_dir, "C:/Users/u/AppData/Roaming/ev");
    assert_eq!(info.reveal_target, "C:/Users/u/AppData/Roaming/ev/.keep");
    assert!(info.source_bash.is_none());
    assert!(info.source_zsh.is_none());
    assert!(info.source_fish.is_none());
    assert_eq!(
        info.note,
        "Windows uses user-level environment variables (HKCU). New terminals/apps will pick up updates."
    );
}

#[test]
fn multiple_entries_render_in_entry_order() {
    let g = group("A=1\nB=2\n");
    assert_eq!(render_sh_file(&g), "export A=\"1\"\nexport B=\"2\"\n");
    assert_eq!(render_fish_file(&g), "set -gx A \"1\"\nset -gx B \"2\"\n");
}
