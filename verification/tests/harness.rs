use pithos::builtin::Names;
use pithos::harness::credentials::{
    keychain_complaint, keychain_data, platform_matches, CredentialStep, Credentials, Settled,
};
use pithos::harness::def::{
    AllowlistDef, AllowlistToml, CredentialDef, HarnessDef, HarnessToml, MountDef, MountToml,
};
use pithos::harness::embedded::{claude_code, embedded};
use pithos::harness::loader::{
    config_dir_candidates, is_harness_file, load_from_dir, load_user_harnesses, user_harness_dir,
};
use pithos::harness::mount::{
    is_ancestor_of, pick_existing, resolve_host_path, sanitize_target, Site,
};
use pithos::harness::registry::{all_harnesses, available_names, find};
use pithos::harness::selection::{
    fault_message, is_inside_git_worktree, resolve_prefixed_path, validate_override_file,
    validate_sink, Harness, Look,
};
use pithos::harness::types::{
    Access, AllowlistFormat, BadHostBase, HarnessDependency, HostBase, MountType, OnMissing,
    Platform, Translation,
};
use pithos::podman::{HostDirs, Prepare};

fn words(list: &[&str]) -> Vec<String> {
    list.iter().map(|word| word.to_string()).collect()
}

fn acme() -> Names {
    Names::of("acme-code").unwrap()
}

fn dirs() -> HostDirs {
    HostDirs {
        home: Some("/home/me".to_string()),
        data: Some("/home/me/.local/share".to_string()),
        state: Some("/home/me/.local/state".to_string()),
        config: Some("/home/me/.config".to_string()),
        cache: Some("/home/me/.cache".to_string()),
    }
}

fn no_sink() -> AllowlistToml {
    AllowlistToml {
        translation: Translation::default(),
        env_var: None,
        target: String::new(),
        format: AllowlistFormat::Json,
    }
}

fn toml_named(name: &str) -> HarnessToml {
    HarnessToml {
        schema_version: 1,
        name: name.to_string(),
        install: "echo hi".to_string(),
        command: Vec::new(),
        depends_on: Vec::new(),
        mounts: Vec::new(),
        allowlist: no_sink(),
        credentials: Vec::new(),
    }
}

fn accepted(toml: HarnessToml) -> HarnessDef {
    match HarnessDef::from_toml(toml) {
        Ok(def) => def,
        Err(message) => panic!("{message}"),
    }
}

fn refused(toml: HarnessToml) -> String {
    match HarnessDef::from_toml(toml) {
        Ok(_) => panic!("the definition was accepted"),
        Err(message) => message,
    }
}

fn named(name: &str) -> HarnessDef {
    accepted(toml_named(name))
}

fn with_sink(target: &str, format: AllowlistFormat) -> HarnessDef {
    let mut toml = toml_named("example");
    toml.allowlist.target = target.to_string();
    toml.allowlist.format = format;
    accepted(toml)
}

fn tmpfs_mount(target: &str) -> MountToml {
    MountToml {
        host: String::new(),
        target: target.to_string(),
        mount_type: MountType::Ephemeral,
        access: Access::Tmpfs,
        host_base: HostBase::Home,
    }
}

fn credential(source: &str, target: &str, on_missing: OnMissing) -> CredentialDef {
    CredentialDef {
        source: source.to_string(),
        target: target.to_string(),
        platforms: None,
        host_base: HostBase::Home,
        on_missing,
    }
}

fn args_of(def: &HarnessDef, overridden: bool, present: &[&str]) -> Result<Vec<String>, String> {
    let dirs = dirs();
    let present = words(present);
    let site =
        Site { dirs: &dirs, runtime_base: "/run/p", session_id: "session", present: &present };
    match site.apply_mounts(def, overridden, false) {
        Ok(plan) => Ok(plan.args),
        Err(message) => Err(message),
    }
}

#[test]
fn sink_parses_from_toml() {
    let def = with_sink("/home/agent/.example/settings.json", AllowlistFormat::Json);
    assert!(def.allowlist.has_sink());
    assert_eq!(def.allowlist.target, "/home/agent/.example/settings.json");
}

#[test]
fn missing_sink_means_no_support() {
    assert!(!named("example").allowlist.has_sink());
}

#[test]
fn known_definitions_declare_absolute_file_sinks() {
    for def in all_harnesses(&acme(), Vec::new()) {
        let name = &def.name;
        assert!(def.allowlist.has_sink(), "{name} has no allowlist sink");
        assert!(
            def.allowlist.target.starts_with('/'),
            "{name} sink target must be absolute"
        );
        assert!(validate_sink(&def).is_ok());
    }
}

#[test]
fn override_file_is_mounted_at_sink_target() {
    let def = find("opencode", &acme(), Vec::new()).expect("opencode must exist");
    let args = args_of(&def, true, &[]).unwrap();
    let volume = args
        .windows(2)
        .find(|pair| pair[0] == "--volume")
        .map(|pair| pair[1].clone())
        .expect("sink must add a volume");
    assert!(
        volume.ends_with("/home/agent/.config/opencode/opencode.json:ro"),
        "{volume}"
    );
    assert!(volume.starts_with("/run/p/session/home_agent_.config_opencode_opencode.json:"));
}

#[test]
fn opencode_config_dir_mount_is_skipped_when_override_present() {
    let def = find("opencode", &acme(), Vec::new()).expect("opencode must exist");
    let present = ["/home/me/.config/opencode"];
    let args = args_of(&def, true, &present).unwrap().join(" ");
    assert!(
        !args.contains("/home/agent/.config/opencode:ro"),
        "ancestor config dir mount must be skipped: {args}"
    );
    assert!(
        args.contains("/home/agent/.config/opencode/opencode.json:ro"),
        "sink file must be mounted: {args}"
    );
    let args = args_of(&def, false, &present).unwrap().join(" ");
    assert!(args.contains("/home/agent/.config/opencode:ro"));
}

#[test]
fn generated_mount_without_matching_sink_fails() {
    let mut toml = toml_named("example");
    toml.mounts = vec![MountToml {
        host: "generated.json".to_string(),
        target: "/home/agent/.example/generated.json".to_string(),
        mount_type: MountType::Generated,
        access: Access::Ro,
        host_base: HostBase::Runtime,
    }];
    let error = args_of(&accepted(toml), false, &[]).unwrap_err();
    assert!(error.contains("generated mount"), "{error}");
}

#[test]
fn override_without_sink_fails() {
    let error = args_of(&named("example"), true, &[]).unwrap_err();
    assert!(error.contains("does not declare"), "{error}");
}

#[test]
fn ephemeral_mounts_are_tmpfs() {
    let mut toml = toml_named("example");
    toml.mounts = vec![tmpfs_mount("/scratch")];
    assert_eq!(
        args_of(&accepted(toml), false, &[]).unwrap(),
        ["--tmpfs", "/scratch:rw,mode=1777"]
    );
    let mut toml = toml_named("example");
    toml.mounts = vec![MountToml { access: Access::Ro, ..tmpfs_mount("/scratch") }];
    assert_eq!(
        args_of(&accepted(toml), false, &[]).unwrap_err(),
        "mount /scratch type ephemeral must have access tmpfs, got Ro"
    );
}

fn selected(sandbox_config: &str) -> Harness {
    Harness {
        name: "opencode".to_string(),
        command: words(&["opencode"]),
        sandbox_config: Some(sandbox_config.to_string()),
        credentials: false,
    }
}

fn opencode() -> HarnessDef {
    find("opencode", &acme(), Vec::new()).unwrap()
}

fn found(contents: &str) -> Look {
    Look { present: true, is_directory: false, contents: Ok(contents.as_bytes().to_vec()) }
}

#[test]
fn bare_relative_path_is_rejected_with_prefix_hint() {
    let message = selected("sandbox.json")
        .validate(&opencode(), "/conf", Some("/home/me"), &found("{}"))
        .unwrap_err();
    assert!(message.contains("config:"), "{message}");
    assert!(message.contains("cwd:"), "{message}");
    assert!(message.contains("\"sandbox.json\""), "{message}");
}

#[test]
fn missing_override_file_fails_with_resolved_path() {
    let look =
        Look { present: false, is_directory: false, contents: Err("not found".to_string()) };
    let message = selected("config:missing.json")
        .validate(&opencode(), "/conf", None, &look)
        .unwrap_err();
    assert_eq!(
        message,
        "harness.sandbox_config not found: /conf/missing.json (resolved from \"config:missing.json\" against /conf)"
    );
}

#[test]
fn invalid_json_override_fails() {
    let error = selected("config:sandbox.json")
        .validate(&opencode(), "/conf", None, &found("not json {{{"))
        .unwrap_err();
    assert!(error.contains("not valid JSON"), "{error}");
}

#[test]
fn valid_override_passes_validation() {
    selected("config:sandbox.json")
        .validate(&opencode(), "/conf", None, &found(r#"{"permission": "allow"}"#))
        .unwrap();
}

#[test]
fn cwd_prefix_resolves_against_process_dir() {
    selected("cwd:/somewhere/sandbox.json")
        .validate(
            &opencode(),
            "/nonexistent-config-dir",
            None,
            &found(r#"{"permission": "allow"}"#),
        )
        .unwrap();
}

#[test]
fn overrides_are_found_by_their_prefix() {
    let at = |raw: &str| resolve_prefixed_path(raw, "/conf", Some("/home/me"));
    assert_eq!(at("config:a.json").unwrap(), "/conf/a.json");
    assert_eq!(at("cwd:a.json").unwrap(), "a.json");
    assert_eq!(at("~/a.json").unwrap(), "/home/me/a.json");
    assert_eq!(at("~").unwrap(), "/home/me");
    assert_eq!(at("/etc/a.json").unwrap(), "/etc/a.json");
    assert!(at("config:").unwrap_err().contains("\"config:\" requires a path"));
    assert!(at("cwd:").unwrap_err().contains("\"cwd:\" requires a path"));
    assert_eq!(
        resolve_prefixed_path("~/a.json", "/conf", None).unwrap_err(),
        "cannot determine home directory"
    );
}

#[test]
fn overrides_are_files() {
    let look = Look { present: true, is_directory: true, contents: Err("is a dir".to_string()) };
    let message = selected("config:dir").validate(&opencode(), "/conf", None, &look).unwrap_err();
    assert_eq!(
        message,
        "harness.sandbox_config must point to a file, got directory /conf/dir"
    );
    let unread = Look { present: true, is_directory: false, contents: Err("denied".to_string()) };
    let message = selected("config:a").validate(&opencode(), "/conf", None, &unread).unwrap_err();
    assert_eq!(message, "cannot read /conf/a: denied");
}

#[test]
fn toml_overrides_are_read_as_toml() {
    let def = with_sink("/home/agent/.example/config.toml", AllowlistFormat::Toml);
    let check = |bytes: &[u8]| validate_override_file(&def, "o.toml", &Ok(bytes.to_vec()));
    assert!(check(b"[permissions.tight.network]\nenabled = true\n").is_ok());
    assert!(check(b"= nothing").unwrap_err().starts_with("o.toml is not valid TOML: "));
    assert_eq!(check(b"\xff").unwrap_err(), "o.toml is not valid UTF-8 TOML");

    let raw = with_sink("/home/agent/.example/config", AllowlistFormat::Raw);
    assert!(validate_override_file(&raw, "o", &Ok(b"\xff".to_vec())).is_ok());
    assert_eq!(
        validate_override_file(&named("example"), "o", &Ok(Vec::new())).unwrap_err(),
        "harness \"example\" does not support harness.sandbox_config; remove the key"
    );
    assert!(fault_message("o", AllowlistFormat::Json, None).is_ok());
    assert_eq!(
        fault_message("o", AllowlistFormat::Toml, Some("bad".to_string())).unwrap_err(),
        "o is not valid TOML: bad"
    );
}

#[test]
fn relative_sinks_are_refused() {
    let def = with_sink("settings.json", AllowlistFormat::Json);
    assert_eq!(
        validate_sink(&def).unwrap_err(),
        "harness \"example\" allowlist target must be an absolute container path, got \"settings.json\""
    );
}

#[test]
fn overrides_in_a_repository_are_noticed() {
    let present = words(&["/work/repo/.git"]);
    assert!(is_inside_git_worktree("/work/repo/conf/sandbox.json", &present));
    assert!(!is_inside_git_worktree("/work/other/sandbox.json", &present));
    assert!(is_inside_git_worktree("conf/sandbox.json", &words(&[".git"])));
}

#[test]
fn accepts_multiple_mount_entries_and_closed_types() {
    let mut toml = toml_named("example");
    toml.mounts = vec![
        MountToml {
            host: "credentials.json".to_string(),
            target: "/home/agent/.credentials.json".to_string(),
            mount_type: MountType::parse("credentials").unwrap(),
            access: Access::parse("ro").unwrap(),
            host_base: HostBase::parse("home").unwrap(),
        },
        MountToml {
            host: "data.json".to_string(),
            target: "/home/agent/.data.json".to_string(),
            mount_type: MountType::parse("state").unwrap(),
            access: Access::parse("pinned").unwrap(),
            host_base: HostBase::parse("data:example").unwrap(),
        },
    ];
    assert_eq!(accepted(toml).mounts.len(), 2);
}

#[test]
fn rejects_unknown_mount_type() {
    assert!(MountType::parse("unknown").is_none());
    assert!(Access::parse("rw").is_none());
    assert!(Translation::parse("other").is_none());
    assert_eq!(Translation::parse("claude_settings"), Some(Translation::ClaudeSettings));
}

#[test]
fn keychain_and_file_credentials_keep_their_platforms() {
    let target = "/home/agent/.acme/.credentials.json";
    let mut toml = toml_named("example");
    toml.credentials = vec![
        CredentialDef {
            platforms: Some(vec![Platform::Macos]),
            ..credential("keychain:Acme Code-credentials", target, OnMissing::Warn)
        },
        credential("file:.acme/.credentials.json", target, OnMissing::Warn),
    ];
    let def = accepted(toml);
    assert_eq!(def.credentials.len(), 2);
    assert_eq!(def.credentials[0].source, "keychain:Acme Code-credentials");
    assert_eq!(def.credentials[1].source, "file:.acme/.credentials.json");
    assert!(platform_matches(&def.credentials[0].platforms, Platform::Macos));
    assert!(!platform_matches(&def.credentials[0].platforms, Platform::Linux));
    assert!(platform_matches(&def.credentials[1].platforms, Platform::of("freebsd")));
}

#[test]
fn parses_file_credential_with_data_host_base() {
    let base = HostBase::parse("data:opencode").unwrap();
    assert!(matches!(base, HostBase::Data(app) if app == "opencode"));
    assert_eq!(HostBase::parse("data:").unwrap_err(), BadHostBase::NoData);
    assert_eq!(HostBase::parse("state:").unwrap_err(), BadHostBase::NoState);
    assert_eq!(HostBase::parse("cache:").unwrap_err(), BadHostBase::NoCache);
    assert_eq!(HostBase::parse("elsewhere").unwrap_err(), BadHostBase::Unknown);
    assert_eq!(
        BadHostBase::NoData.message(),
        Some("data host_base requires an application")
    );
}

#[test]
fn rejects_invalid_credential_source() {
    let mut toml = toml_named("example");
    toml.credentials = vec![credential("invalid:foo", "/home/agent/.foo", OnMissing::Warn)];
    let def = accepted(toml);
    assert_eq!(def.credentials.len(), 1);
    assert_eq!(
        step(&Credentials::new(), &def.credentials[0], Platform::Linux).unwrap_err(),
        "credential source must start with \"keychain:\" or \"file:\", got \"invalid:foo\""
    );
}

fn step(
    credentials: &Credentials,
    credential: &CredentialDef,
    platform: Platform,
) -> Result<String, String> {
    let dirs = dirs();
    let site = Site { dirs: &dirs, runtime_base: "/run/p", session_id: "s", present: &[] };
    match credentials.step(credential, platform, &site) {
        Ok(CredentialStep::Skip) => Ok("skip".to_string()),
        Ok(CredentialStep::Keychain { service, path }) => Ok(format!("keychain {service} {path}")),
        Ok(CredentialStep::File { candidates }) => Ok(candidates.join(" ")),
        Err(message) => Err(message),
    }
}

#[test]
fn each_credential_place_is_filled_once() {
    let target = "/home/agent/.acme/.credentials.json";
    let first = credential("keychain: Acme ", target, OnMissing::Warn);
    let second = credential("file:././.acme/c.json", target, OnMissing::Warn);
    let mut credentials = Credentials::new();
    assert_eq!(
        step(&credentials, &first, Platform::Macos).unwrap(),
        "keychain Acme /run/p/s/credentials/home_agent_.acme_.credentials.json"
    );
    assert_eq!(
        step(&credentials, &second, Platform::Macos).unwrap(),
        "/home/me/.acme/c.json"
    );
    let missing = credentials
        .settle_keychain(&first, "Acme", "/run/p/s/x", Err("no such item".to_string()))
        .unwrap();
    assert_eq!(missing, Settled::Warned);
    let settled = credentials.settle_file(&second, "/home/me/.acme/c.json", true).unwrap();
    assert_eq!(settled, Settled::Mounted);
    assert_eq!(step(&credentials, &first, Platform::Macos).unwrap(), "skip");
    assert_eq!(
        credentials.args(),
        [
            "--volume",
            "/home/me/.acme/c.json:/home/agent/.acme/.credentials.json:ro",
        ]
    );
}

#[test]
fn credentials_can_be_required() {
    let keychain = credential("keychain:svc", "/t", OnMissing::Error);
    let file = credential("file:a", "/t", OnMissing::Error);
    let mut credentials = Credentials::new();
    assert_eq!(
        credentials
            .settle_keychain(&keychain, "svc", "/p", Err("locked".to_string()))
            .unwrap_err(),
        "keychain service \"svc\" failed: locked"
    );
    assert_eq!(
        credentials.settle_file(&file, "/home/me/a", false).unwrap_err(),
        "credential file /home/me/a not found"
    );
    let quiet = credential("file:a", "/t", OnMissing::Ignore);
    assert_eq!(
        credentials.settle_file(&quiet, "/home/me/a", false).unwrap(),
        Settled::Skipped
    );
    assert!(step(&credentials, &credential("keychain: ", "/t", OnMissing::Warn), Platform::Linux)
        .unwrap_err()
        .contains("requires service name"));
    assert!(step(&credentials, &credential("file:a", "t", OnMissing::Warn), Platform::Linux)
        .unwrap_err()
        .contains("must be absolute path, got \"t\""));
}

#[test]
fn keychain_secrets_should_be_json() {
    assert!(keychain_complaint(b"{\"token\": \"x\"}").is_none());
    assert!(keychain_complaint(b"plain").unwrap().starts_with("expected value"));
}

#[test]
fn keychain_secrets_lose_their_line_ends() {
    assert_eq!(keychain_data("svc", true, b"{}\r\n\n".to_vec(), b"").unwrap(), b"{}");
    assert_eq!(
        keychain_data("svc", true, b"\n".to_vec(), b"").unwrap_err(),
        "keychain service \"svc\" returned empty data"
    );
    assert_eq!(
        keychain_data("svc", false, Vec::new(), b" not found\n").unwrap_err(),
        "security find-generic-password failed: not found"
    );
}

#[test]
fn loads_valid_harness_from_dir() {
    let mut toml = toml_named("my");
    toml.mounts = vec![tmpfs_mount("/tmp")];
    let harnesses = load_from_dir(vec![HarnessDef::from_toml(toml)]);
    assert_eq!(harnesses.len(), 1);
    assert_eq!(harnesses[0].name, "my");
}

#[test]
fn ignores_invalid_file_but_loads_valid() {
    let harnesses = load_from_dir(vec![
        Err("invalid bad.toml".to_string()),
        HarnessDef::from_toml(toml_named("good")),
    ]);
    assert_eq!(harnesses.len(), 1);
    assert_eq!(harnesses[0].name, "good");
    assert!(is_harness_file("/conf/good.toml"));
    assert!(!is_harness_file("/conf/good.json"));
}

#[test]
fn run_prefixed_install_is_rejected() {
    let legacy = || {
        let mut toml = toml_named("legacy");
        toml.install = "RUN echo hi\n".to_string();
        toml
    };
    assert!(load_from_dir(vec![HarnessDef::from_toml(legacy())]).is_empty());
    assert!(refused(legacy()).contains("RUN prefix"));
    let mut fine = toml_named("fine");
    fine.install = "runner install".to_string();
    assert_eq!(accepted(fine).install, "runner install");
}

#[test]
fn depends_on_entries_are_vetted() {
    assert!(HarnessDependency::parse("node").is_none());
    assert_eq!(HarnessDependency::parse("npm"), Some(HarnessDependency::Npm));
}

#[test]
fn definitions_have_a_version_and_a_name() {
    let mut toml = toml_named("x");
    toml.schema_version = 2;
    assert_eq!(refused(toml), "unsupported schema_version 2");
    assert_eq!(refused(toml_named("")), "harness name cannot be empty");
}

#[test]
fn written_parts_are_taken_over() {
    let mount = MountDef::from(tmpfs_mount("/scratch"));
    assert_eq!(mount.target, "/scratch");
    assert_eq!(mount.access, Access::Tmpfs);
    let allowlist = AllowlistDef::from(no_sink());
    assert!(!allowlist.has_sink());
}

#[test]
fn embedded_definitions_are_three() {
    assert_eq!(available_names(&acme(), Vec::new()), ["acme-code", "codex", "opencode"]);
    let found = find("acme-code", &acme(), Vec::new()).unwrap();
    assert_eq!(found.install, "npm install --global @anthropic-ai/acme-code");
    assert_eq!(found.command, ["acme"]);
    assert!(find("amce-code", &acme(), Vec::new()).is_none());
}

#[test]
fn every_embedded_definition_is_found_under_its_name() {
    let own: Vec<HarnessDef> = embedded(&acme());
    assert_eq!(own.len(), 3);
    for def in own {
        let found = find(&def.name, &acme(), Vec::new()).unwrap();
        assert_eq!(found.install, def.install);
        let mut toml = toml_named(&def.name);
        toml.install = "mine".to_string();
        let replaced = find(&def.name, &acme(), vec![accepted(toml)]).unwrap();
        assert_eq!(replaced.install, "mine");
    }
}

#[test]
fn a_settled_credential_leaves_the_others_alone() {
    let first = credential("file:a", "/one", OnMissing::Ignore);
    let second = credential("file:b", "/two", OnMissing::Ignore);
    let third = credential("keychain:svc", "/three", OnMissing::Ignore);
    let mut credentials = Credentials::new();
    credentials.settle_file(&first, "/home/me/a", true).unwrap();
    assert_eq!(step(&credentials, &first, Platform::Macos).unwrap(), "skip");
    assert_ne!(step(&credentials, &second, Platform::Macos).unwrap(), "skip");
    credentials.settle_keychain(&third, "svc", "/run/p/s/x", Ok(())).unwrap();
    assert_eq!(step(&credentials, &third, Platform::Macos).unwrap(), "skip");
    assert_ne!(step(&credentials, &second, Platform::Macos).unwrap(), "skip");
    assert_eq!(step(&credentials, &first, Platform::Macos).unwrap(), "skip");
}

#[test]
fn find_returns_cloned() {
    assert!(find("opencode", &acme(), Vec::new()).is_some());
    assert!(find("nonexistent", &acme(), Vec::new()).is_none());
}

#[test]
fn find_returns_correct_definition() {
    let def = find("opencode", &acme(), Vec::new()).expect("opencode must exist");
    assert_eq!(def.name, "opencode");
    assert!(!def.install.is_empty());
    assert_eq!(def.depends_on, [HarnessDependency::Npm]);
}

#[test]
fn embedded_installs_are_plain_shell_commands() {
    for def in all_harnesses(&acme(), Vec::new()) {
        let first_word =
            def.install.split_whitespace().next().unwrap_or_default().to_ascii_uppercase();
        assert_ne!(first_word, "RUN", "harness {} bakes a RUN prefix", def.name);
    }
}

#[test]
fn available_names_lists_all_embedded() {
    let names = available_names(&acme(), Vec::new());
    assert!(names.len() >= 2);
    assert!(names.windows(2).all(|w| w[0] <= w[1]));
}

#[test]
fn codex_mounts_parent_tmpfs_before_pinned_children() {
    let def = find("codex", &acme(), Vec::new()).expect("embedded codex definition parses");
    let first = def.mounts.first().expect("codex has mounts");
    assert_eq!(first.target, "/home/agent/.codex");
    assert_eq!(first.mount_type, MountType::State);
    assert_eq!(first.access, Access::PinnedDir);
    let targets = |mount_type: MountType| -> Vec<&str> {
        def.mounts
            .iter()
            .filter(|m| m.mount_type == mount_type)
            .map(|m| m.target.as_str())
            .collect()
    };
    assert_eq!(targets(MountType::State), ["/home/agent/.codex"]);
    assert_eq!(
        targets(MountType::Ephemeral),
        [
            "/home/agent/.codex/log",
            "/home/agent/.codex/cache",
            "/home/agent/.codex/tmp",
            "/home/agent/.codex/.tmp",
        ]
    );
    assert!(
        def.mounts.iter().all(|m| !m.target.contains("logs_")),
        "no log DB mounts"
    );
}

#[test]
fn user_definitions_take_the_place_of_embedded_ones() {
    let mine = || {
        let mut toml = toml_named("codex");
        toml.install = "my codex".to_string();
        accepted(toml)
    };
    let user = || load_user_harnesses(vec![vec![named("zed"), named("codex")], vec![mine()]]);
    let loaded: Vec<String> = user().into_iter().map(|def| def.name).collect();
    assert_eq!(loaded, ["codex", "zed"]);
    assert_eq!(find("codex", &acme(), user()).unwrap().install, "my codex");
    assert_eq!(available_names(&acme(), user()), ["acme-code", "codex", "opencode", "zed"]);
    let listed = all_harnesses(&acme(), user());
    assert_eq!(listed[1].install, "my codex");
}

#[test]
fn definitions_are_looked_for_in_two_directories() {
    assert_eq!(
        config_dir_candidates(Some("/home/me/.config"), Some("/home/me")),
        ["/home/me/.config"]
    );
    assert_eq!(
        config_dir_candidates(Some("/home/me/Library"), Some("/home/me")),
        ["/home/me/Library", "/home/me/.config"]
    );
    assert!(config_dir_candidates(None, None).is_empty());
    let present = words(&["/home/me/.config/pithos/harnesses"]);
    assert_eq!(
        user_harness_dir(Some("/home/me/Library"), Some("/home/me"), &present),
        Some("/home/me/.config".to_string())
    );
    assert_eq!(
        user_harness_dir(Some("/c"), Some("/home/me"), &[]),
        Some("/c/pithos/harnesses".to_string())
    );
}

#[test]
fn mounts_are_found_on_the_host() {
    let dirs = HostDirs {
        home: Some("/home/me".to_string()),
        data: Some("/data".to_string()),
        state: None,
        config: None,
        cache: None,
    };
    let present = words(&["/home/me/.local/share/app/db"]);
    let site =
        Site { dirs: &dirs, runtime_base: "/run/p", session_id: "s", present: &present };
    let at = |host: &str, host_base: HostBase| {
        resolve_host_path(
            &MountDef {
                host: host.to_string(),
                target: "/t".to_string(),
                mount_type: MountType::State,
                access: Access::Pinned,
                host_base,
            },
            &site,
        )
    };
    assert_eq!(at("", HostBase::Home).unwrap(), "");
    assert_eq!(at("x", HostBase::Home).unwrap(), "/home/me/x");
    assert_eq!(
        at("db", HostBase::Data("app".to_string())).unwrap(),
        "/home/me/.local/share/app/db"
    );
    assert_eq!(at("other", HostBase::Data("app".to_string())).unwrap(), "/data/app/other");
    assert_eq!(
        at("s", HostBase::State("app".to_string())).unwrap(),
        "/home/me/.local/state/app/s"
    );
    assert_eq!(at("c", HostBase::Cache("app".to_string())).unwrap(), "/home/me/.cache/app/c");
    assert_eq!(at("r", HostBase::Runtime).unwrap(), "/run/p/s/r");

    let nowhere = HostDirs { home: None, data: None, state: None, config: None, cache: None };
    let site = Site { dirs: &nowhere, runtime_base: "/run/p", session_id: "s", present: &[] };
    assert_eq!(
        site.host_candidates(&HostBase::Data("app".to_string()), "db").unwrap_err(),
        "cannot determine data directory"
    );
    assert_eq!(
        site.host_candidates(&HostBase::Home, "db").unwrap_err(),
        "cannot determine home directory"
    );
    assert_eq!(pick_existing(&words(&["/a", "/b"]), &words(&["/b"])), "/b");
    assert_eq!(pick_existing(&words(&["/a", "/b"]), &[]), "/a");
}

#[test]
fn pinned_mounts_are_made_first() {
    let def = find("codex", &acme(), Vec::new()).unwrap();
    let dirs = dirs();
    let site = Site { dirs: &dirs, runtime_base: "/run/p", session_id: "s", present: &[] };
    let plan = match site.apply_mounts(&def, false, false) {
        Ok(plan) => plan,
        Err(message) => panic!("{message}"),
    };
    assert!(matches!(
        &plan.prepare[..],
        [Prepare::Directory(path)] if path == "/home/me/.local/share/codex/state"
    ));
    assert_eq!(plan.args[0], "--volume");
    assert_eq!(
        plan.args[1],
        "/home/me/.local/share/codex/state:/home/agent/.codex:rw"
    );
}

#[test]
fn container_paths_have_ancestors_and_flat_names() {
    assert!(is_ancestor_of("/home/agent/.config", "/home/agent/.config/x"));
    assert!(is_ancestor_of("/home/agent/.config/", "/home/agent/.config/x"));
    assert!(!is_ancestor_of("/home/agent/.config", "/home/agent/.configure"));
    assert!(!is_ancestor_of("/home/agent", "/home/agent"));
    assert!(!is_ancestor_of("", "/x"));
    assert_eq!(sanitize_target("/home/agent\\x"), "home_agent_x");
}

#[test]
fn another_harness_can_be_selected() {
    let mut harness = selected("config:a.json");
    harness.credentials = true;
    let other = claude_code(&acme());
    harness.apply_harness_override("acme-code".to_string(), Some(&other), &[]).unwrap();
    assert_eq!(harness.name(), "acme-code");
    assert_eq!(harness.command(), &["acme"]);
    assert!(!harness.credentials_enabled());
    assert!(harness.sandbox_config_raw().is_none());
    assert_eq!(harness.install(Some(&other)), other.install);
    assert_eq!(harness.depends_on(Some(&other)), [HarnessDependency::Npm]);
    assert_eq!(harness.install(None), "");

    assert_eq!(
        harness
            .apply_harness_override("nope".to_string(), None, &words(&["codex", "opencode"]))
            .unwrap_err(),
        "unknown harness \"nope\"; available: codex, opencode"
    );
    assert!(harness
        .apply_harness_override("my".to_string(), Some(&named("my")), &[])
        .unwrap_err()
        .contains("has no default command"));
    assert_eq!(harness.name(), "acme-code");
    match harness.require_definition(None, &words(&["codex"])) {
        Ok(_) => panic!("there is no definition"),
        Err(message) => {
            assert_eq!(message, "unknown harness \"acme-code\"; available: codex")
        }
    }
}

#[test]
fn definition_follows_from_the_names() {
    let def = claude_code(&acme());
    assert_eq!(def.name, "acme-code");
    assert_eq!(def.install, "npm install --global @anthropic-ai/acme-code");
    assert_eq!(def.command, ["acme"]);
    assert_eq!(def.allowlist.translation, Translation::ClaudeSettings);
    let sources: Vec<&str> = def.credentials.iter().map(|item| item.source.as_str()).collect();
    assert_eq!(sources, ["keychain:Acme Code-credentials", "file:.acme/.credentials.json"]);
    let pinned = def.mounts.iter().find(|item| item.host == "acme.json").unwrap();
    assert_eq!(pinned.target, "/home/agent/.acme.json");
    let memory = def.mounts.iter().find(|item| item.host == ".acme/ACME.md").unwrap();
    assert_eq!(memory.target, "/home/agent/.acme/ACME.md");
}

#[test]
fn credentials_are_mounted_with_consent_only() {
    let secret = || MountToml {
        host: ".example/token".to_string(),
        target: "/home/agent/.example/token".to_string(),
        mount_type: MountType::Credentials,
        access: Access::Ro,
        host_base: HostBase::Home,
    };
    let mut toml = toml_named("example");
    toml.mounts = vec![tmpfs_mount("/home/agent/.cache"), secret()];
    let def = accepted(toml);
    let mut bare = toml_named("example");
    bare.mounts = vec![tmpfs_mount("/home/agent/.cache")];
    let bare = accepted(bare);

    let dirs = dirs();
    let present = words(&["/home/me/.example/token"]);
    let site = Site { dirs: &dirs, runtime_base: "/run/p", session_id: "s", present: &present };
    let args = |def: &HarnessDef, credentials: bool| match site.apply_mounts(def, false, credentials)
    {
        Ok(plan) => plan.args,
        Err(message) => panic!("{message}"),
    };
    assert_eq!(args(&def, false), args(&bare, true));
    assert_eq!(
        args(&def, true)[2..],
        ["--volume", "/home/me/.example/token:/home/agent/.example/token:ro"]
    );
}
