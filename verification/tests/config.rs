use roll_flow::config::{
    default_lazygit, detect_branches, parse_hosts_nix, Config, Mode, PullMode, CONFIG_VERSION,
};

fn layer(name: &str, text: &str) -> (String, String) {
    (name.to_string(), text.to_string())
}

fn flag(active: &Vec<(String, bool)>, host: &str) -> Option<bool> {
    active.iter().find(|(h, _)| h == host).map(|(_, on)| *on)
}

#[test]
fn overrides_hosts_and_prefix() {
    let cfg = Config {
        config_version: 1,
        repo_root: "/tmp/repo".to_string(),
        rolling_branch: "rolling".to_string(),
        stable_branch: "main".to_string(),
        roll_prefix: "roll/".to_string(),
        version_gate: true,
        tag_on_promote: true,
        push_tag: true,
        mode: Mode::default(),
        username: "old".to_string(),
        hosts: vec!["x".to_string()],
        host_active: Default::default(),
        roll_to_rolling_gates: vec![],
        rolling_to_main_gates: vec![],
        host_gates: vec![],
        clean_protect: vec![],
        pull_mode: PullMode::default(),
        lazygit_command: default_lazygit(),
    };
    let updated = cfg.with_overrides(
        Some("rolling".to_string()),
        Some("main".to_string()),
        Some("roll".to_string()),
        Some("me".to_string()),
        Some("a,b".to_string()),
    );
    assert_eq!(updated.roll_prefix, "roll/");
    assert_eq!(updated.username, "me");
    assert_eq!(updated.hosts, vec!["a".to_string(), "b".to_string()]);
}

#[test]
fn mode_defaults_to_manage_when_absent() {
    // A config written before the `mode` field existed still loads.
    let legacy = r#"
        config_version = 1
        repo_root = "/tmp/repo"
        rolling_branch = "rolling"
        stable_branch = "main"
        roll_prefix = "roll/"
        username = "me"
        hosts = []
    "#;
    let parsed: Config = Config::parse(legacy, "/tmp/repo").expect("parse legacy").0;
    assert_eq!(parsed.mode, Mode::Manage);
    assert!(!parsed.is_assist());
    // Fields added later must not make an older config unloadable.
    assert!(parsed.clean_protect.is_empty());
    assert_eq!(parsed.pull_mode, PullMode::FfOnly);
    assert_eq!(parsed.lazygit_command, "lazygit");
}

#[test]
fn pull_mode_parse_accepts_both_separators_and_rejects_junk() {
    assert_eq!(PullMode::parse("ff_only").unwrap(), PullMode::FfOnly);
    assert_eq!(PullMode::parse("  Rebase ").unwrap(), PullMode::Rebase);
    let err = PullMode::parse("ff").expect_err("should reject");
    assert!(err.to_string().contains("expected"), "{err:?}");
}

#[test]
fn pull_mode_flags_match_the_git_invocations() {
    assert_eq!(PullMode::FfOnly.flag(), Some("--ff-only"));
    assert_eq!(PullMode::Merge.flag(), None);
    assert_eq!(PullMode::Rebase.flag(), Some("--rebase"));
}

const MINIMAL: &str = r#"
    config_version = 1
    repo_root = "/tmp/repo"
    rolling_branch = "rolling"
    stable_branch = "main"
    roll_prefix = "roll/"
    username = "me"
    hosts = []
"#;

fn parse(text: &str) -> (Config, Vec<String>) {
    Config::parse(text, "/real/checkout").expect("parse")
}

#[test]
fn an_unknown_key_warns_and_is_ignored_rather_than_failing() {
    let text = format!("{MINIMAL}\nclean_protct = [\"staging\"]\n");
    let (cfg, warnings) = parse(&text);
    assert!(cfg.clean_protect.is_empty());
    assert_eq!(warnings.len(), 1, "{warnings:?}");
    assert!(
        warnings[0].contains("unknown key 'clean_protct'"),
        "{warnings:?}"
    );
}

#[test]
fn a_clean_config_earns_no_warnings() {
    let (_, warnings) = parse(MINIMAL);
    assert!(warnings.is_empty(), "{warnings:?}");
}

#[test]
fn a_different_config_version_warns_but_loads() {
    let text = MINIMAL.replace("config_version = 1", "config_version = 3");
    let (cfg, warnings) = parse(&text);
    assert_eq!(cfg.config_version, 3, "the file's own value is kept");
    assert!(
        warnings
            .iter()
            .any(|w| w.contains("config_version is 3")
                && w.contains(&CONFIG_VERSION.to_string())),
        "{warnings:?}"
    );
}

#[test]
fn repo_root_comes_from_git_not_the_file() {
    // The file says wherever `rf init` last ran; the checkout may have
    // moved. This is why the repo's own file can say /home/user/... and
    // still work everywhere.
    let (cfg, _) = parse(MINIMAL);
    assert_eq!(cfg.repo_root, "/real/checkout");
}

#[test]
fn a_roll_prefix_without_a_slash_is_normalized_with_a_warning() {
    let text = MINIMAL.replace("roll_prefix = \"roll/\"", "roll_prefix = \"roll\"");
    let (cfg, warnings) = parse(&text);
    assert_eq!(cfg.roll_prefix, "roll/");
    assert!(
        warnings.iter().any(|w| w.contains("roll_prefix")),
        "{warnings:?}"
    );
}

#[test]
fn a_missing_required_key_says_how_to_regenerate() {
    let text = MINIMAL.replace("rolling_branch = \"rolling\"\n", "");
    let err = Config::parse(&text, "/r").expect_err("must fail");
    let msg = err.to_string();
    assert!(msg.contains("rolling_branch"), "{msg}");
    assert!(msg.contains("rf init"), "{msg}");
}

#[test]
fn a_host_gate_without_the_placeholder_is_flagged() {
    let text = format!("{MINIMAL}\nhost_gates = [\"just test-rebuild merlin\"]\n");
    let (_, warnings) = parse(&text);
    assert!(
        warnings.iter().any(|w| w.contains("{host}")),
        "{warnings:?}"
    );
}

#[test]
fn active_hosts_come_from_host_active_when_hosts_is_empty() {
    // The dotfiles shape: `hosts = []` and a populated table. Treating that
    // as "no hosts" silently disabled every host gate there.
    let text =
        format!("{MINIMAL}\n[host_active]\nmerlin = true\nwsl = true\nganoslal = false\n");
    let (cfg, _) = parse(&text);
    assert_eq!(
        cfg.active_hosts(),
        vec!["merlin".to_string(), "wsl".to_string()]
    );

    // With `hosts` given, it fixes the order and may add a host the map
    // does not mention, which counts as active (and is warned about).
    let text = format!(
        "{}\n[host_active]\nmerlin = true\nwsl = false\n",
        MINIMAL.replace("hosts = []", "hosts = [\"wsl\", \"spacedock\", \"merlin\"]")
    );
    let (cfg, warnings) = parse(&text);
    assert_eq!(
        cfg.active_hosts(),
        vec!["spacedock".to_string(), "merlin".to_string()]
    );
    assert!(
        warnings.iter().any(|w| w.contains("spacedock")),
        "{warnings:?}"
    );
}

#[test]
fn hosts_nix_is_read_in_both_shapes() {
    // The real dotfiles file: a bare attrset, with a comment, in file order.
    let real = "# Per-host active status for roll-flow and other tooling.\n\
                {\n  merlin = true;\n  wsl = true;\n  ganoslal = false;\n  # spare = true;\n}\n";
    let (hosts, active) = parse_hosts_nix(real).expect("bare shape parses");
    assert_eq!(hosts, vec!["merlin", "wsl", "ganoslal"]);
    assert_eq!(flag(&active, "ganoslal"), Some(false));
    assert!(
        flag(&active, "spare").is_none(),
        "a commented-out host was read"
    );

    // The legacy shape the parser was first written for still works.
    let legacy =
        "{\n  hosts = [ \"a\" \"b\" ];\n  host_active = { a = true; b = false; };\n}\n";
    let (hosts, active) = parse_hosts_nix(legacy).expect("legacy shape parses");
    assert_eq!(hosts, vec!["a", "b"]);
    assert_eq!(
        active,
        vec![("a".to_string(), true), ("b".to_string(), false)]
    );

    // A file that describes no hosts is `None`, not an empty success —
    // `rf init` must not overwrite real hosts with nothing.
    assert!(parse_hosts_nix("{ description = \"x\"; }").is_none());
}

#[test]
fn a_repo_file_overrides_the_global_layer_key_by_key() {
    let global = r#"
        rolling_branch = "develop"
        stable_branch = "main"
        roll_prefix = "roll/"
        username = "me"
        lazygit_command = "lg"
        clean_protect = ["staging", "demo"]
        [host_active]
        merlin = true
        wsl = true
    "#;
    // The repo file can be tiny: it overrides what it names and inherits the rest.
    let repo = r#"
        stable_branch = "master"
        clean_protect = ["only-this"]
    "#;
    let (cfg, warnings) = Config::from_layers(
        &vec![layer("global", global), layer("repo", repo)],
        "/r",
    )
    .expect("layers merge");
    assert!(warnings.is_empty(), "{warnings:?}");
    assert_eq!(cfg.rolling_branch, "develop", "inherited from global");
    assert_eq!(cfg.stable_branch, "master", "repo wins");
    assert_eq!(cfg.lazygit_command, "lg");
    // Replaced whole, not spliced: nothing of the global array leaks through.
    assert_eq!(cfg.clean_protect, vec!["only-this"]);
    assert_eq!(cfg.active_hosts(), vec!["merlin", "wsl"], "table inherited");
}

#[test]
fn unknown_keys_are_reported_against_the_file_that_has_them() {
    let global =
        "rolling_branch = \"r\"\nstable_branch = \"m\"\nroll_prefix = \"roll/\"\nbogus = 1\n";
    let repo = "clean_protct = []\n";
    let (_, warnings) = Config::from_layers(
        &vec![
            layer("~/.config/roll-flow/config.toml", global),
            layer(".roll-flow.toml", repo),
        ],
        "/r",
    )
    .expect("parse");
    assert!(
        warnings
            .iter()
            .any(|w| w.contains("'bogus' in ~/.config/roll-flow/config.toml")),
        "{warnings:?}"
    );
    assert!(
        warnings
            .iter()
            .any(|w| w.contains("'clean_protct' in .roll-flow.toml")),
        "{warnings:?}"
    );
}

#[test]
fn only_the_branch_keys_are_required() {
    // username and hosts used to be required too, which made a global file
    // pointless: the repo file had to repeat them anyway.
    let minimal =
        "rolling_branch = \"rolling\"\nstable_branch = \"main\"\nroll_prefix = \"roll/\"\n";
    let (cfg, warnings) = parse(minimal);
    assert!(warnings.is_empty(), "{warnings:?}");
    assert!(cfg.username.is_empty());
    assert!(cfg.hosts.is_empty());
    assert_eq!(cfg.repo_root, "/real/checkout");
}

#[test]
fn config_path_is_repo_local() {
    let path = Config::config_path("/tmp/repo");
    assert_eq!(path, "/tmp/repo/.roll-flow.toml");
}

#[test]
fn release_flags_default_on_for_legacy_configs() {
    // A config written before the release fields existed still loads, and
    // opts in to the version gate and tagging by default.
    let legacy = r#"
        config_version = 1
        repo_root = "/tmp/repo"
        rolling_branch = "develop"
        stable_branch = "main"
        roll_prefix = "roll/"
        username = "me"
        hosts = []
    "#;
    let parsed: Config = Config::parse(legacy, "/tmp/repo").expect("parse legacy").0;
    assert!(parsed.version_gate);
    assert!(parsed.tag_on_promote);
    assert!(parsed.push_tag);
}

#[test]
fn branches_are_found_wherever_they_are_checked_out() {
    let found = |listing: &str| detect_branches(listing);
    let both = |rolling: &str, stable: &str| (rolling.to_string(), stable.to_string());
    assert_eq!(found("* develop\n+ master"), both("develop", "master"));
    assert_eq!(found("+ integration\n  main"), both("integration", "main"));
    assert_eq!(found("  feature/x"), both("rolling", "main"));
}

#[test]
fn active_hosts_come_in_the_order_of_their_names() {
    let text = format!("{MINIMAL}\n[host_active]\nwsl = true\nmerlin = true\nalpha = true\n");
    assert_eq!(parse(&text).0.active_hosts(), ["alpha", "merlin", "wsl"]);
}

#[test]
fn a_mode_can_be_the_only_key_of_a_table() {
    let with = |lines: &str| {
        let text = "rolling_branch = \"rolling\"\nstable_branch = \"main\"\nroll_prefix = \"roll/\"\n";
        Config::parse(&format!("{text}{lines}"), "/repo")
    };
    let (cfg, _) = with("mode = { assist = {} }\npull_mode = { rebase = [] }\n").expect("modes");
    assert_eq!(cfg.mode, Mode::Assist);
    assert_eq!(cfg.pull_mode, PullMode::Rebase);
    assert!(with("mode = { assist = 1 }\n").is_err());
    assert!(with("mode = { assist = { x = 1 } }\n").is_err());
    assert!(with("mode = {}\n").is_err());
    assert!(with("mode = 1979-05-27\n").is_err());
}

#[test]
fn a_date_can_stand_for_a_string() {
    let text = "rolling_branch = \"rolling\"\nstable_branch = \"main\"\nroll_prefix = \"roll/\"\n\
                username = 1979-05-27\nhosts = [07:32:00, \"merlin\"]\n";
    let (cfg, _) = Config::parse(text, "/repo").expect("strings");
    assert_eq!(cfg.username, "1979-05-27");
    assert_eq!(cfg.hosts, ["07:32:00", "merlin"]);
    assert!(Config::parse(&text.replace("1979-05-27", "1.5"), "/repo").is_err());
}
