use pithos::audio::Passthrough;
use pithos::builtin::{default_opencode_command, Harness};
use pithos::config::{
    default_base_image, default_install, default_workspace, Config, Networking,
};
use pithos::platform::AGENT_HOME;
use pithos::progress::{
    default_filter, progress_enabled, resolved, resolving, resolving_so_far, verbose_filter, Amount,
};
use pithos::pull::{
    build_pull_report, check_target, check_workspace, decide_review, lists_changes, pull_outcome,
    pull_step, pull_target, PullOptions, ReviewDecision, Sighting,
};
use pithos::run::{
    check_answers, check_start, closing, live_tier_env, user_text, Closing, Launch,
};
use pithos::session::ChangeKind;
use pithos::workspace::CopyStrategy;

fn pairs(list: &[(&str, &str)]) -> Vec<(String, String)> {
    list.iter().map(|(key, value)| (key.to_string(), value.to_string())).collect()
}

fn config(environment: &[(&str, &str)]) -> Config {
    Config {
        base_image: default_base_image(),
        workspace: default_workspace(),
        image_tag: None,
        install: default_install(),
        toolchains: Vec::new(),
        toolchain_defs: Vec::new(),
        cargo: Vec::new(),
        npm: Vec::new(),
        bun: Vec::new(),
        uv: Vec::new(),
        downloads: Vec::new(),
        mise: Vec::new(),
        harness: Harness::Opencode {
            command: default_opencode_command(),
            allowlist: None,
            credentials: false,
        },
        global_toolchains: Vec::new(),
        environment: pairs(environment),
        ephemeral: Vec::new(),
        ignore: Vec::new(),
        diff_viewer: None,
        copy_strategy: None,
        networking: Networking::default(),
        audio: false,
    }
}

fn launch(
    config: &Config,
    strategy: CopyStrategy,
    terminal: &[(&str, &str)],
    audio: Option<&Passthrough>,
) -> Vec<String> {
    let terminal = pairs(terminal);
    let mounts = vec!["--tmpfs".to_string(), "/mounted".to_string()];
    Launch {
        config,
        container_name: "pithos-a-0001",
        repository: "/repo",
        sandbox: "/box",
        strategy,
        uid: 1000,
        gid: 1001,
        terminal: &terminal,
        mounts: &mounts,
        audio,
    }
    .args()
}

#[test]
fn a_container_is_run_confined() {
    let args = launch(&config(&[]), CopyStrategy::Copy, &[("TERM", "xterm")], None);
    assert_eq!(
        args,
        [
            "run",
            "--rm",
            "--interactive",
            "--tty",
            "--read-only",
            "--pull=never",
            "--cap-drop=ALL",
            "--cap-add=SETUID",
            "--cap-add=SETGID",
            "--cap-add=SETPCAP",
            "--security-opt=no-new-privileges",
            "--userns=keep-id",
            "--name",
            "pithos-a-0001",
            "--cap-add=NET_ADMIN",
            "--volume",
            "/box:/workspace:rw,Z",
            "--workdir",
            "/workspace",
            "--tmpfs",
            "/tmp:rw,mode=1777",
            "--tmpfs",
            "/home/agent:rw,mode=1777",
            "--tmpfs",
            "/run/user/1000:rw,mode=1777",
            "--env",
            "HOME=/home/agent",
            "--env",
            "PITHOS_AGENT_UID=1000",
            "--env",
            "PITHOS_AGENT_GID=1001",
            "--env",
            "XDG_RUNTIME_DIR=/run/user/1000",
            "--env",
            "CARGO_HOME=/home/agent/.cargo",
            "--env",
            "NPM_CONFIG_PREFIX=/home/agent/.local",
            "--env-merge",
            "PATH=/home/agent/.local/share/mise/shims:/home/agent/.cargo/bin:/home/agent/.local/bin:${PATH}",
            "--env",
            "TERM=xterm",
            "--tmpfs",
            "/mounted",
            "localhost/pithos-opencode:latest",
        ]
    );
}

#[test]
fn shared_clones_see_the_objects_of_the_repository() {
    let mut settings = config(&[]);
    settings.networking.enabled = false;
    let args = launch(&settings, CopyStrategy::Worktree, &[], None);
    assert!(args.contains(&"/repo/.git/objects:/pithos/git-objects:ro,Z".to_string()));
    assert!(!args.contains(&"--cap-add=NET_ADMIN".to_string()));
}

#[test]
fn configured_variables_win() {
    let settings = config(&[
        ("CARGO_HOME", "/mine"),
        ("PATH", "/bin"),
        ("TERM", "dumb"),
        ("XDG_RUNTIME_DIR", "/elsewhere"),
    ]);
    let sound = Passthrough {
        volume: "/sock:/guest:rw,Z".to_string(),
        env: pairs(&[("XDG_RUNTIME_DIR", "/run/user/1000"), ("PULSE_SERVER", "unix:/guest")]),
    };
    let args = launch(&settings, CopyStrategy::Copy, &[("TERM", "xterm")], Some(&sound));
    for name in ["CARGO_HOME=", "TERM=", "XDG_RUNTIME_DIR="] {
        assert_eq!(args.iter().filter(|arg| arg.starts_with(name)).count(), 1, "{name}");
    }
    assert!(args.contains(&"TERM=dumb".to_string()));
    assert!(!args.contains(&"--env-merge".to_string()));
    assert!(args.contains(&"/sock:/guest:rw,Z".to_string()));
    assert!(args.contains(&"PULSE_SERVER=unix:/guest".to_string()));
}

#[test]
fn run_live_tier_env_redirects_writable_state_only() {
    let home = AGENT_HOME;
    let env: std::collections::BTreeMap<String, String> = live_tier_env().into_iter().collect();
    assert_eq!(env.get("CARGO_HOME").unwrap(), &format!("{home}/.cargo"));
    assert_eq!(env.get("NPM_CONFIG_PREFIX").unwrap(), &format!("{home}/.local"));
    assert!(
        !env.contains_key("MISE_DATA_DIR"),
        "shims resolve through the baked data dir"
    );
    assert!(
        !env.contains_key("RUSTUP_HOME"),
        "rustup proxies resolve through the baked toolchain root"
    );
}

#[test]
fn sessions_start_in_a_repository_and_not_as_root() {
    assert!(check_start(true, 1000).is_ok());
    assert_eq!(
        check_start(false, 1000).unwrap_err(),
        "current directory is not a git repository"
    );
    assert!(check_start(true, 0).unwrap_err().contains("non-root host user"));
    assert!(check_answers(true, false).is_ok());
    assert_eq!(
        check_answers(true, true).unwrap_err(),
        "--yes and --no cannot be combined"
    );
    assert_eq!(user_text(1000, 1001), "1000:1001");
}

#[test]
fn sessions_close_by_flag_or_by_question() {
    assert_eq!(closing(true, false, 0), Closing::Apply);
    assert_eq!(closing(false, true, 3), Closing::Discard);
    assert_eq!(closing(false, false, 0), Closing::Discard);
    assert_eq!(closing(false, false, 3), Closing::Review);
}

#[test]
fn decide_review_requires_explicit_flag_without_tty() {
    assert_eq!(decide_review(true, false, false).unwrap(), ReviewDecision::Apply);
    assert_eq!(decide_review(false, true, false).unwrap(), ReviewDecision::Decline);
    assert_eq!(decide_review(false, false, true).unwrap(), ReviewDecision::Prompt);
    let error = decide_review(false, false, false).unwrap_err();
    assert!(error.contains("--yes"));
}

fn options(auto_yes: bool, dry_run: bool, json: bool) -> PullOptions {
    PullOptions { auto_yes, auto_no: false, dry_run, json }
}

#[test]
fn pull_dry_run_leaves_both_trees_untouched() {
    let dry = options(true, true, false);
    assert_eq!(pull_step(dry, 2, true).unwrap(), ReviewDecision::Decline);
    assert_eq!(pull_step(options(true, false, false), 2, false).unwrap(), ReviewDecision::Apply);
    assert_eq!(pull_outcome(false, 2, true, "/repo"), "dry run: nothing applied");
}

#[test]
fn json_reports_do_not_ask() {
    assert_eq!(
        pull_step(options(false, false, true), 2, true).unwrap_err(),
        "--json cannot prompt for confirmation; pass --yes or --no"
    );
    assert_eq!(
        pull_step(options(false, false, false), 2, true).unwrap(),
        ReviewDecision::Prompt
    );
    assert_eq!(
        pull_step(options(false, false, false), 0, false).unwrap(),
        ReviewDecision::Decline
    );
    assert!(!lists_changes(options(false, false, true), 2));
    assert!(lists_changes(options(false, false, false), 2));
}

#[test]
fn pull_targets_override_directory() {
    let target = pull_target("/elsewhere", Some("nested/."), "/checkout");
    let found = check_target(target, Some("/checkout/nested".to_string()), true).unwrap();
    assert_eq!(found, "/checkout/nested");
    let file = pull_target("/elsewhere", Some("/checkout/file"), "/");
    assert_eq!(
        check_target(file, Some("/checkout/file".to_string()), false).unwrap_err(),
        "/checkout/file is not a directory"
    );
    let own = pull_target("/repo", None, "/");
    assert_eq!(check_target(own, None, true).unwrap(), "/repo");
}

#[test]
fn pull_rejects_missing_targets() {
    let gone = pull_target("/repo/gone", None, "/");
    assert!(check_target(gone, None, false).unwrap_err().contains("no longer exists"));
    let missing = pull_target("/repo", Some("/repo/missing-dir"), "/");
    assert!(check_target(missing, None, false).unwrap_err().contains("cannot access"));
    assert!(check_workspace("/box", true).is_ok());
    assert_eq!(
        check_workspace("/box", false).unwrap_err(),
        "session workspace /box no longer exists"
    );
}

#[test]
fn pull_report_classifies_kinds() {
    let seen = |path: &str, in_target: bool, in_sandbox: bool| Sighting {
        path: path.to_string(),
        in_target,
        in_sandbox,
    };
    let changed = vec![
        seen("added.txt", false, true),
        seen("deleted.txt", true, false),
        seen("modified.txt", true, true),
    ];
    let report = build_pull_report("sess-0001", "/repo", &changed, false);
    assert_eq!(report.session, "sess-0001");
    assert_eq!(report.target, "/repo");
    assert!(!report.applied);
    let kinds: Vec<(String, ChangeKind)> =
        report.changed.into_iter().map(|entry| (entry.path, entry.kind)).collect();
    assert!(kinds.contains(&(String::from("added.txt"), ChangeKind::Added)));
    assert!(kinds.contains(&(String::from("modified.txt"), ChangeKind::Modified)));
    assert!(kinds.contains(&(String::from("deleted.txt"), ChangeKind::Deleted)));
}

#[test]
fn pulls_end_with_one_line() {
    assert_eq!(pull_outcome(true, 3, false, "/repo"), "pulled 3 files into /repo");
    assert_eq!(pull_outcome(false, 0, true, "/repo"), "no changes to pull");
    assert_eq!(pull_outcome(false, 3, false, "/repo"), "no changes applied");
}

#[test]
fn progress_follows_its_setting() {
    assert!(progress_enabled(Some("always"), false));
    assert!(!progress_enabled(Some("never"), true));
    assert!(progress_enabled(Some("auto"), true));
    assert!(!progress_enabled(None, false));
    assert_eq!(verbose_filter(0, "pithos"), None);
    assert_eq!(verbose_filter(1, "pithos"), Some("pithos=debug".to_string()));
    assert_eq!(verbose_filter(2, "pithos"), Some("pithos=trace".to_string()));
    assert_eq!(verbose_filter(9, "pithos"), Some("trace".to_string()));
    assert_eq!(default_filter("pithos"), "warn,pithos=info");
}

#[test]
fn progress_is_told_in_words() {
    let amount = |files: u64, cloned: u64, symlinks: u64| Amount {
        files,
        cloned,
        symlinks,
        size: "1.5 KiB",
    };
    assert_eq!(amount(0, 0, 0).so_far(), None);
    assert_eq!(amount(2, 0, 0).so_far(), Some("2 files • 1.5 KiB".to_string()));
    assert_eq!(
        amount(2, 0, 1).so_far(),
        Some("2 files • 1.5 KiB • 1 symlinks".to_string())
    );
    assert_eq!(
        amount(2, 2, 0).copied(80),
        "copied 2 files • 1.5 KiB • 2 cloned • 0 symlinks in 80ms"
    );
    assert_eq!(
        amount(2, 0, 0).copied(80),
        "copied 2 files • 1.5 KiB • 0 symlinks in 80ms"
    );
    assert_eq!(
        amount(2, 2, 1).applied(80),
        "applied 2 files • 1.5 KiB • 1 symlinks in 80ms"
    );
    assert_eq!(resolving(11), "resolving 11 hosts (3s timeout)...");
    assert_eq!(resolving_so_far(2, 11), "resolving 2/11 hosts...");
    assert_eq!(resolved(11, 20, 90), "resolved 11 hosts → 20 addresses in 90ms");
}
