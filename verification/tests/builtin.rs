use pithos::builtin::{
    data_path, default_claude_code_command, default_opencode_command, ensure_verdict, home_path,
    macos_credentials_warning, merge_claude_settings, select, settings_path, state_path, Harness,
    Names, Wanted,
};
use pithos::harness::registry::{available_names, find};
use pithos::harness::translate::claude_settings_translation;
use pithos::json::Json;
use pithos::platform::AGENT_HOME;
use pithos::podman::{tmpfs_spec, HostDirs, Prepare};
use serde_json::Value;

type Pairs = Vec<(String, Json)>;

fn text(value: &str) -> Json {
    Json::Text(value.to_string())
}

fn table(list: &[(&str, &str)]) -> Json {
    Json::Object(list.iter().map(|(key, value)| (key.to_string(), text(value))).collect())
}

fn dirs() -> HostDirs {
    HostDirs {
        home: Some("/home/me".to_string()),
        data: Some("/home/me/.local/share".to_string()),
        state: Some("/home/me/.local/state".to_string()),
        config: Some("/home/me/.config".to_string()),
        cache: Some("/home/me/.cache".to_string()),
    }
}

fn opencode(allowlist: Option<Pairs>, credentials: bool) -> Harness {
    Harness::Opencode { command: default_opencode_command(), allowlist, credentials }
}

fn names() -> Names {
    Names::of("acme-code").unwrap()
}

fn claude_code(allowlist: Option<Pairs>, credentials: bool) -> Harness {
    let names = names();
    let command = default_claude_code_command(&names);
    Harness::ClaudeCode { names, command, allowlist, credentials }
}

fn edit(verdict: &str) -> Pairs {
    vec![("edit".to_string(), text(verdict))]
}

fn mounted(harness: &Harness, session: &str, present: &[&str]) -> Vec<String> {
    let present: Vec<String> = present.iter().map(|path| path.to_string()).collect();
    let settings = settings_path(&names(), "/run/user/1000/pithos", session);
    match harness.mount(&dirs(), &settings, &present) {
        Ok(plan) => plan.args,
        Err(message) => panic!("{message}"),
    }
}

fn member<'a>(json: &'a Json, key: &str) -> &'a Json {
    json.member(key).unwrap()
}

fn list_of(json: &Json) -> Vec<String> {
    match json {
        Json::List(items) => items.iter().map(|item| item.as_text().unwrap().clone()).collect(),
        _ => panic!("not a list"),
    }
}

fn permissions(merged: &Json, verdict: &str) -> Vec<String> {
    list_of(member(member(merged, "permissions"), verdict))
}

#[test]
fn tmpfs_mounts_are_world_writable_with_sticky_bit() {
    assert_eq!(tmpfs_spec("/tmp"), "/tmp:rw,mode=1777");
    assert_eq!(
        tmpfs_spec(&format!("{AGENT_HOME}/.cache")),
        "/home/agent/.cache:rw,mode=1777"
    );
}

#[test]
fn opencode_allowlist_becomes_permission_env() {
    let allowlist = vec![
        ("bash".to_string(), table(&[("*", "ask"), ("git *", "allow")])),
        ("edit".to_string(), text("deny")),
    ];
    let environment = opencode(Some(allowlist), false).environment();
    let (key, value) = environment.first().unwrap();
    assert_eq!(key, "OPENCODE_CONFIG_CONTENT");
    let parsed: Value = serde_json::from_str(value).unwrap();
    assert_eq!(parsed["permission"]["edit"], "deny");
    assert_eq!(parsed["permission"]["bash"]["*"], "ask");
    assert_eq!(parsed["permission"]["bash"]["git *"], "allow");
}

#[test]
fn harness_without_allowlist_injects_nothing() {
    assert!(opencode(None, false).environment().is_empty());
}

#[test]
fn allowlist_mounts_config_folder_without_credentials() {
    let harness = opencode(Some(edit("deny")), false);
    assert!(harness.config_required());
    assert!(!harness.credentials_enabled());
}

#[test]
fn no_allowlist_no_credentials_mounts_nothing() {
    let harness = opencode(None, false);
    assert!(!harness.config_required());
    assert!(!harness.credentials_enabled());
}

#[test]
fn home_paths_resolve_relative_to_home() {
    assert_eq!(
        home_path(&dirs(), ".config/opencode").unwrap(),
        "/home/me/.config/opencode"
    );
    assert_eq!(data_path(&dirs(), "opencode").unwrap(), "/home/me/.local/share/opencode");
    assert_eq!(state_path(&dirs(), "opencode").unwrap(), "/home/me/.local/state/opencode");
    let nowhere = HostDirs { home: None, data: None, state: None, config: None, cache: None };
    assert_eq!(
        home_path(&nowhere, ".config").unwrap_err(),
        "cannot determine home directory"
    );
}

#[test]
fn credentials_enable_config_folder_and_auth() {
    let harness = opencode(None, true);
    assert!(harness.config_required());
    assert!(harness.credentials_enabled());
}

#[test]
fn runtime_folders_are_tmpfs_and_content_is_file_mounted() {
    let args = mounted(&opencode(None, false), "test-session", &[]);
    let share_target = format!("{AGENT_HOME}/.local/share/opencode");
    let state_target = format!("{AGENT_HOME}/.local/state/opencode");
    assert!(
        args.iter().any(|arg| arg == &tmpfs_spec(&share_target)),
        "expected {share_target} as tmpfs, got {args:?}"
    );
    assert!(
        args.iter().any(|arg| arg == &tmpfs_spec(&state_target)),
        "expected {state_target} as tmpfs, got {args:?}"
    );
    assert!(
        !args.iter().any(|arg| arg.ends_with(&format!(":{share_target}:rw"))),
        "share dir must not be a whole-directory bind mount, got {args:?}"
    );
    assert!(
        !args.iter().any(|arg| arg.ends_with(&format!(":{state_target}:rw"))),
        "state dir must not be a whole-directory bind mount, got {args:?}"
    );
    for name in [
        "opencode.db",
        "opencode.db-wal",
        "opencode.db-shm",
        "kv.json",
        "session.json",
        "model.json",
        "prompt-history.jsonl",
    ] {
        let expected_suffix = format!("/{name}:rw");
        assert!(
            args.iter().any(|arg| arg.ends_with(&expected_suffix)),
            "expected a pinned rw mount ending with {expected_suffix}, got {args:?}"
        );
    }
    let churn = args.iter().filter(|arg| arg.ends_with(",mode=1777")).count();
    assert!(churn >= 4, "expected tmpfs churn mounts, got {args:?}");
}

#[test]
fn pinned_files_are_made_before_they_are_mounted() {
    let plan = match opencode(None, false).mount(&dirs(), "unused", &[]) {
        Ok(plan) => plan,
        Err(message) => panic!("{message}"),
    };
    let made: Vec<&str> = plan
        .prepare
        .iter()
        .map(|item| match item {
            Prepare::File(path) => path.as_str(),
            Prepare::Directory(path) => panic!("{path} is a directory"),
        })
        .collect();
    assert_eq!(made.len(), 7);
    assert_eq!(made[0], "/home/me/.local/share/opencode/opencode.db");
    assert_eq!(made[3], "/home/me/.local/state/opencode/kv.json");
}

#[test]
fn without_credentials_auth_json_is_not_mounted() {
    let present = ["/home/me/.local/share/opencode/auth.json"];
    let args = mounted(&opencode(Some(edit("deny")), false), "test-session", &present);
    assert!(
        !args.iter().any(|arg| arg.contains("auth.json")),
        "auth.json must not be mounted without credentials, got {args:?}"
    );
}

#[test]
fn credentials_mount_auth_json_read_only() {
    let present = ["/home/me/.local/share/opencode/auth.json"];
    let args = mounted(&opencode(None, true), "test-session", &present);
    assert!(
        args.iter().any(|arg| arg.ends_with("/auth.json:ro")),
        "expected a read-only auth.json mount, got {args:?}"
    );
}

#[test]
fn names_follow_from_the_name_of_the_harness() {
    let names = names();
    assert_eq!(names.base, "acme");
    assert_eq!(names.title, "Acme Code");
    assert_eq!(names.memory, "ACME.md");
    assert!(Names::of("-code").is_none());
    assert!(Names::of("acme").is_none());
    assert_eq!(Names::of("\u{e9}1-code").unwrap().memory, "\u{e9}1.md");
}

#[test]
fn named_harness_defaults_to_bare_cli() {
    let harness = claude_code(None, false);
    assert_eq!(harness.command(), &["acme"]);
    assert_eq!(harness.install(), "RUN npm install --global @anthropic-ai/acme-code\n");
    assert_eq!(harness.name(), "acme-code");
}

#[test]
fn named_harness_pins_state_files_and_projects_directory() {
    let args = mounted(&claude_code(None, true), "test-session", &[]);
    for suffix in ["/.acme.json:rw", "/.acme/projects:rw", "/.acme/history.jsonl:rw"] {
        assert!(
            args.iter().any(|arg| arg.ends_with(suffix)),
            "expected pinned mount ending with {suffix}, got {args:?}"
        );
    }
}

#[test]
fn named_harness_churn_dirs_are_tmpfs() {
    let args = mounted(&claude_code(None, false), "test-session", &[]);
    for churn in ["todos", "shell-snapshots", "statsig"] {
        let expected = tmpfs_spec(&format!("{AGENT_HOME}/.acme/{churn}"));
        assert!(args.contains(&expected), "expected {expected} tmpfs, got {args:?}");
    }
}

#[test]
fn named_harness_credentials_are_read_only_when_gated() {
    let present = ["/home/me/.acme/.credentials.json"];
    let args = mounted(&claude_code(None, false), "test-session", &present);
    assert!(
        !args.iter().any(|arg| arg.contains(".credentials.json")),
        "credentials must not mount without credentials = true, got {args:?}"
    );
    let args = mounted(&claude_code(None, true), "test-session", &present);
    assert!(
        args.iter().any(|arg| arg.ends_with("/.acme/.credentials.json:ro")),
        "expected read-only credentials mount, got {args:?}"
    );
}

#[test]
fn named_harness_personal_config_mounts_read_only_when_present() {
    let harness = claude_code(None, false);
    let args = mounted(&harness, "test-session", &["/home/me/.acme/skills"]);
    assert!(
        args.iter().any(|arg| arg.ends_with("/.acme/skills:ro")),
        "expected ro skills mount, got {args:?}"
    );
    let args = mounted(&harness, "test-session", &[]);
    assert!(!args.iter().any(|arg| arg.contains("/.acme/skills")));
}

#[test]
fn named_harness_settings_file_is_generated_per_session() {
    let allowlist = vec![
        (
            "bash".to_string(),
            table(&[("*", "ask"), ("curl -T *", "deny"), ("git *", "allow")]),
        ),
        ("edit".to_string(), text("allow")),
    ];
    let harness = claude_code(Some(allowlist), false);
    let args = mounted(&harness, "sess-1234", &[]);
    let settings_arg = args
        .iter()
        .find(|arg| arg.ends_with("/.acme/settings.json:ro"))
        .expect("generated settings must be mounted read-only");
    assert!(settings_arg.contains("sess-1234"));

    let contents = harness.claude_settings(None).expect("an allowlist gives settings");
    let merged: Value =
        serde_json::from_str(&contents).expect("generated settings must be valid JSON");
    let rules = |verdict: &str| -> Vec<String> {
        merged["permissions"][verdict]
            .as_array()
            .unwrap()
            .iter()
            .map(|rule| rule.as_str().unwrap().to_string())
            .collect()
    };
    assert_eq!(rules("allow"), ["Edit", "Write", "Bash(git *)"]);
    assert_eq!(rules("ask"), ["Bash(*)"]);
    assert_eq!(rules("deny"), ["Bash(curl -T *)"]);
}

#[test]
fn settings_keep_the_users_own_keys() {
    let harness = claude_code(Some(edit("ask")), false);
    let contents = harness.claude_settings(Some("{\"model\": \"opus\"}")).unwrap();
    let merged: Value = serde_json::from_str(&contents).unwrap();
    assert_eq!(merged["model"], "opus");
    assert_eq!(merged["permissions"]["ask"][0], "Edit");

    let contents = harness.claude_settings(Some("not json")).unwrap();
    let merged: Value = serde_json::from_str(&contents).unwrap();
    assert_eq!(merged["permissions"]["ask"][1], "Write");
    assert!(merged.get("model").is_none());
}

#[test]
fn claude_code_without_allowlist_mounts_no_generated_settings() {
    let harness = claude_code(None, false);
    let args = mounted(&harness, "sess-0000", &[]);
    assert!(
        !args.iter().any(|arg| arg.contains("settings.json")),
        "no settings should be generated without an allowlist, got {args:?}"
    );
    assert!(harness.claude_settings(None).is_none());
}

fn deny_edits() -> Pairs {
    vec![
        ("bash".to_string(), table(&[("*", "ask"), ("git *", "allow")])),
        ("edit".to_string(), text("deny")),
    ]
}

fn stale_settings() -> Json {
    Json::Object(vec![
        ("model".to_string(), text("opus")),
        (
            "permissions".to_string(),
            Json::Object(vec![("allow".to_string(), Json::List(vec![text("Stale")]))]),
        ),
    ])
}

#[test]
fn merge_claude_settings_keeps_user_keys_and_replaces_permissions() {
    let merged = merge_claude_settings(stale_settings(), &deny_edits());
    assert_eq!(member(&merged, "model").as_text().unwrap(), "opus");
    assert_eq!(permissions(&merged, "allow"), ["Bash(git *)"]);
    assert_eq!(permissions(&merged, "ask"), ["Bash(*)"]);
    assert_eq!(permissions(&merged, "deny"), ["Edit", "Write"]);
}

#[test]
fn translate_merge_keeps_user_keys_and_replaces_permissions() {
    let merged = claude_settings_translation(&deny_edits(), stale_settings());
    assert_eq!(member(&merged, "model").as_text().unwrap(), "opus");
    assert_eq!(permissions(&merged, "allow"), ["Bash(git *)"]);
    assert_eq!(permissions(&merged, "ask"), ["Bash(*)"]);
    assert_eq!(permissions(&merged, "deny"), ["Edit", "Write"]);
}

#[test]
fn empty_allowlist_produces_empty_permissions() {
    let user = Json::Object(vec![("model".to_string(), text("sonnet"))]);
    let merged = claude_settings_translation(&Vec::new(), user);
    assert!(permissions(&merged, "allow").is_empty());
    assert!(permissions(&merged, "ask").is_empty());
    assert!(permissions(&merged, "deny").is_empty());
}

#[test]
fn claude_translation_ignores_unknown_verdict() {
    let merged = claude_settings_translation(&edit("unknown"), Json::Object(Vec::new()));
    assert!(permissions(&merged, "allow").is_empty());
}

#[test]
fn claude_code_allowlist_rejects_unsupported_keys_and_verdicts() {
    let webfetch = || vec![("webfetch".to_string(), text("allow"))];
    let complaint = |harness: Harness| match harness.validate() {
        Ok(()) => panic!("the allowlist was accepted"),
        Err(failure) => failure.message,
    };
    let error = complaint(claude_code(Some(webfetch()), false));
    assert!(error.contains("webfetch"), "{error}");
    assert!(error.contains("not supported by the acme-code harness"), "{error}");

    let error = complaint(claude_code(Some(edit("sometimes")), false));
    assert!(error.contains("sometimes"), "{error}");

    let valid = vec![
        ("bash".to_string(), table(&[("git *", "allow")])),
        ("edit".to_string(), text("allow")),
    ];
    assert!(claude_code(Some(valid), false).validate().is_ok());
    assert!(opencode(Some(webfetch()), false).validate().is_ok());
}

#[test]
fn verdicts_are_allow_ask_and_deny() {
    for verdict in ["allow", "ask", "deny"] {
        assert!(ensure_verdict(verdict).is_ok());
    }
    assert_eq!(
        ensure_verdict("never").unwrap_err(),
        "unsupported verdict \"never\"; use \"allow\", \"ask\", or \"deny\""
    );
}

#[test]
fn macos_warning_appears_only_for_missing_credentials_on_macos() {
    let file = "/nonexistent/.credentials.json";
    let message = macos_credentials_warning(&names(), true, file, false).unwrap();
    assert!(message.contains("Keychain"));
    assert!(message.contains("security find-generic-password"));
    assert!(message.starts_with("warning: Acme Code stores OAuth credentials"));
    assert!(message.contains("-s \"Acme Code-credentials\" -w > '/nonexistent/.credentials.json'"));
    assert!(message.contains("run `acme setup-token`"));
    assert!(macos_credentials_warning(&names(), false, file, false).is_none());
    assert!(macos_credentials_warning(&names(), true, "/tmp/pithos-warning-fixture", true).is_none());
}

#[test]
fn claude_code_environment_is_empty() {
    assert!(claude_code(Some(edit("allow")), false).environment().is_empty());
}

#[test]
fn probes_are_the_paths_that_a_plan_asks_about() {
    let harness = claude_code(None, true);
    let probes = harness.probes(&dirs());
    assert!(probes.contains(&"/home/me/.acme/.credentials.json".to_string()));
    assert!(probes.contains(&"/home/me/.acme/skills".to_string()));
}

fn wanted(name: &str) -> Wanted {
    Wanted {
        name: name.to_string(),
        command: None,
        allowlist: None,
        sandbox_config: None,
        credentials: true,
    }
}

fn selected(wanted: Wanted, own: bool) -> Result<Harness, String> {
    let found = find(&wanted.name, &names(), Vec::new());
    select(wanted, names(), found, own, &available_names(&names(), Vec::new()))
}

#[test]
fn known_harnesses_are_selected_by_name() {
    let harness = selected(wanted("opencode"), false).ok().unwrap();
    assert!(matches!(harness, Harness::Opencode { credentials: true, .. }));
    assert_eq!(harness.command(), &["opencode", "/workspace"]);
    let harness = selected(wanted("acme-code"), false).ok().unwrap();
    assert!(matches!(harness, Harness::ClaudeCode { .. }));
    assert_eq!(harness.command(), &["acme"]);
    let mut own_command = wanted("opencode");
    own_command.command = Some(vec!["opencode".to_string()]);
    own_command.allowlist = Some(edit("allow"));
    let harness = selected(own_command, false).ok().unwrap();
    assert_eq!(harness.command(), &["opencode"]);
    assert!(harness.allowlist().is_some());
}

#[test]
fn other_harnesses_are_selected_by_definition() {
    let harness = selected(wanted("codex"), false).ok().unwrap();
    assert_eq!(harness.name(), "codex");
    assert_eq!(harness.command(), &["codex"]);
    assert!(harness.credentials_enabled());
    assert!(harness.install().starts_with("RUN npm install "), "{}", harness.install());
    assert!(harness.install().ends_with('\n'));
    assert!(harness.validate().is_ok());
    assert!(harness.environment().is_empty());
    assert!(harness.probes(&dirs()).is_empty());
    let harness = selected(wanted("opencode"), true).ok().unwrap();
    assert!(matches!(harness, Harness::Defined { .. }));
    let mut overridden = wanted("acme-code");
    overridden.sandbox_config = Some("config:settings.json".to_string());
    let harness = selected(overridden, false).ok().unwrap();
    match &harness {
        Harness::Defined { selected, .. } => {
            assert_eq!(selected.sandbox_config_raw(), Some("config:settings.json"))
        }
        _ => panic!("not by definition"),
    }
}

#[test]
fn harnesses_that_cannot_be_selected() {
    assert_eq!(
        selected(wanted("nope"), false).err().unwrap(),
        "unknown harness \"nope\"; available: acme-code, codex, opencode"
    );
    assert_eq!(
        selected(wanted("amce-code"), false).err().unwrap(),
        "unknown harness \"amce-code\"; available: acme-code, codex, opencode"
    );
    let mut listed = wanted("codex");
    listed.allowlist = Some(edit("allow"));
    assert_eq!(
        selected(listed, false).err().unwrap(),
        "harness \"codex\" does not support harness.allowlist; use harness.sandbox_config"
    );
}
