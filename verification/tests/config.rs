use pithos::builtin::{Harness, Names};
use pithos::config::{
    default_base_image, default_install, default_whitelist, default_workspace, global_config_path,
    global_library_path, resolve_config, starter_config, valid_toolchain_name, Config,
    ConfigSource, Networking,
};
use pithos::toolchain::{Download, ToolchainDef, UvTool};

fn words(list: &[&str]) -> Vec<String> {
    list.iter().map(|word| word.to_string()).collect()
}

fn opencode() -> Harness {
    Harness::Opencode {
        command: words(&["opencode", "/workspace"]),
        allowlist: None,
        credentials: false,
    }
}

fn claude_code() -> Harness {
    Harness::ClaudeCode {
        names: Names::of("acme-code").unwrap(),
        command: words(&["acme"]),
        allowlist: None,
        credentials: false,
    }
}

fn config_for(harness: Harness) -> Config {
    Config {
        base_image: default_base_image(),
        workspace: default_workspace(),
        image_tag: None,
        install: default_install(),
        toolchains: Vec::new(),
        toolchain_defs: Vec::new(),
        cargo: Vec::new(),
        npm: Vec::new(),
        bun: Vec::new(),
        uv: Vec::new(),
        downloads: Vec::new(),
        mise: Vec::new(),
        harness,
        global_toolchains: Vec::new(),
        environment: Vec::new(),
        ephemeral: Vec::new(),
        ignore: Vec::new(),
        diff_viewer: None,
        copy_strategy: None,
        networking: Networking::default(),
        audio: false,
    }
}

fn running(command: &str) -> ToolchainDef {
    ToolchainDef { run: words(&[command]), ..Default::default() }
}

fn including(names: &[&str]) -> ToolchainDef {
    ToolchainDef { includes: words(names), ..Default::default() }
}

fn with_defs(toolchains: &[&str], defs: Vec<(&str, ToolchainDef)>) -> Config {
    let mut config = config_for(opencode());
    config.toolchains = words(toolchains);
    config.toolchain_defs = defs.into_iter().map(|(name, def)| (name.to_string(), def)).collect();
    config
}

fn complaint(config: &Config) -> String {
    match config.validate() {
        Ok(()) => panic!("the configuration was accepted"),
        Err(failure) => failure.message,
    }
}

#[test]
fn merged_toolchains_merge_library_and_project_definitions() {
    let mut config = with_defs(&[], vec![("golang", running("install-go"))]);
    config.global_toolchains.push(("vim".to_string(), running("install-vim")));
    let defs = config.merged_toolchains();
    let found = |name: &str| defs.iter().find(|named| named.name == name).unwrap().def;
    assert_eq!(found("vim").run, ["install-vim"]);
    assert_eq!(found("golang").run, ["install-go"]);
}

#[test]
fn project_definitions_go_before_the_library() {
    let mut config = with_defs(&[], vec![("golang", running("project"))]);
    config.global_toolchains.push(("golang".to_string(), running("library")));
    let defs = config.merged_toolchains();
    assert_eq!(defs.len(), 1);
    assert_eq!(defs[0].def.run, ["project"]);
}

#[test]
fn unknown_selected_toolchain_fails_validation_listing_available() {
    let config = with_defs(&["nosuch"], vec![("golang", running("install-go"))]);
    let message = complaint(&config);
    assert!(message.contains("unknown toolchain \"nosuch\""), "{message}");
    assert!(message.contains("golang"), "{message}");
}

#[test]
fn invalid_toolchain_names_fail_validation() {
    let config = with_defs(&[], vec![("bad name", running("true"))]);
    let message = complaint(&config);
    assert!(message.contains("invalid toolchain name"), "{message}");
    assert!(!valid_toolchain_name("bad name"));
    assert!(!valid_toolchain_name(""));
    assert!(valid_toolchain_name("golang-1_24"));
}

#[test]
fn includes_expand_transitively_in_order() {
    let config = with_defs(
        &["fullstack"],
        vec![
            ("fullstack", including(&["rust", "web"])),
            ("rust", running("install-rust")),
            ("web", including(&["python"])),
            ("python", running("install-python")),
        ],
    );
    let defs = config.merged_toolchains();
    match config.expanded_selection(&defs) {
        Ok(names) => assert_eq!(names, ["fullstack", "rust", "web", "python"]),
        Err(error) => panic!("{}", error.message(&defs)),
    }
}

#[test]
fn mutual_includes_are_rejected_with_chain() {
    let config = with_defs(&["a"], vec![("a", including(&["b"])), ("b", including(&["a"]))]);
    let message = complaint(&config);
    assert!(message.contains("cyclic toolchain includes: a -> b -> a"), "{message}");
}

#[test]
fn self_include_is_rejected_as_cycle() {
    let config = with_defs(&["loop"], vec![("loop", including(&["loop"]))]);
    let message = complaint(&config);
    assert!(message.contains("cyclic toolchain includes"), "{message}");
}

#[test]
fn unknown_include_target_errors_with_context() {
    let config = with_defs(&["meta"], vec![("meta", including(&["ghost"]))]);
    let message = complaint(&config);
    assert!(
        message.contains("unknown toolchain \"ghost\" (included by \"meta\")"),
        "{message}"
    );
    assert!(message.contains("available:"), "{message}");
}

#[test]
fn scoped_uv_name_is_validated() {
    let def = ToolchainDef {
        uv: vec![UvTool { name: String::new(), python: None, run: None }],
        ..Default::default()
    };
    let message = complaint(&with_defs(&["py"], vec![("py", def)]));
    assert!(message.contains("uv tool name cannot be empty"), "{message}");
}

#[test]
fn scoped_download_url_is_validated() {
    let def = ToolchainDef {
        downloads: vec![Download { url: String::new(), env: Vec::new() }],
        ..Default::default()
    };
    assert!(with_defs(&["dl"], vec![("dl", def)]).validate().is_err());
}

#[test]
fn default_install_ships_terminfo_database() {
    let config = config_for(opencode());
    assert_eq!(config.install, ["git", "gcc", "libc6-dev", "ncurses-term"]);
    assert_eq!(config.base_image, "node:22-bookworm-slim");
    assert_eq!(config.workspace, "/workspace");
}

#[test]
fn starter_config_defaults_without_toolchain() {
    let parsed: toml::Value = toml::from_str(&starter_config()).unwrap();
    assert!(parsed.get("toolchains").is_none());
    let harness = parsed.get("harness").unwrap();
    let command: Vec<&str> = match harness.get("command") {
        Some(list) => list.as_array().unwrap().iter().map(|word| word.as_str().unwrap()).collect(),
        None => vec!["opencode", "/workspace"],
    };
    assert_eq!(command, ["opencode", "/workspace"]);
}

#[test]
fn starter_config_parses_with_commented_example() {
    let parsed: toml::Value = toml::from_str(&starter_config()).unwrap();
    assert!(parsed.get("toolchains").is_none());
    assert!(starter_config().contains('#'));
}

#[test]
fn with_toolchain_overrides_config_toolchains_and_retags() {
    let mut config = with_defs(&["python"], Vec::new());
    config.with_toolchain(Some("golang".to_string()));
    assert_eq!(config.toolchains, ["golang"]);
    assert_eq!(config.image_tag(), "localhost/pithos-opencode:latest-golang");
}

#[test]
fn with_toolchain_none_keeps_config_toolchains() {
    let mut config = with_defs(&["python"], Vec::new());
    config.with_toolchain(None);
    assert_eq!(config.toolchains, ["python"]);
    assert_eq!(config.image_tag(), "localhost/pithos-opencode:latest");
}

#[test]
fn image_tag_follows_the_name_of_the_harness() {
    assert_eq!(config_for(opencode()).image_tag(), "localhost/pithos-opencode:latest");
    assert_eq!(config_for(claude_code()).image_tag(), "localhost/pithos-acme-code:latest");
}

#[test]
fn explicit_image_tag_overrides_harness_derivation() {
    let mut config = config_for(claude_code());
    config.image_tag = Some("localhost/custom:v1".to_string());
    assert_eq!(config.image_tag(), "localhost/custom:v1");
}

#[test]
fn toolchain_retag_follows_the_name_of_the_harness() {
    let mut config = config_for(claude_code());
    config.with_toolchain(Some("python".to_string()));
    assert_eq!(config.image_tag(), "localhost/pithos-acme-code:latest-python");
}

#[test]
fn empty_explicit_image_tag_fails_validation() {
    let mut config = config_for(opencode());
    config.image_tag = Some(String::new());
    assert!(config.validate().is_err());
}

#[test]
fn diff_viewer_requires_dir_placeholder() {
    let mut config = config_for(opencode());
    config.diff_viewer = Some("lazygit -p {dir}".to_string());
    assert!(config.validate().is_ok());

    config.diff_viewer = Some("lazygit -p /tmp".to_string());
    assert!(config.validate().is_err());

    config.diff_viewer = None;
    assert!(config.validate().is_ok());

    config.environment = vec![
        ("TERM".to_string(), "xterm-256color".to_string()),
        ("diff_viewer".to_string(), "lazygit -p {dir}".to_string()),
    ];
    assert!(config.validate().is_err());
}

#[test]
fn networking_defaults_apply_when_section_absent() {
    let config = config_for(opencode());
    assert!(config.networking.enabled);
    assert_eq!(config.networking.payload_size, Some(65_536));
    assert_eq!(config.networking.quota, Some(2_097_152));
    assert!(config.networking.use_default_whitelist);
    assert!(config.networking.block_private);
    assert!(config.validate().is_ok());
}

#[test]
fn networking_rejects_zero_and_negative_limits() {
    let mut config = config_for(opencode());
    config.networking.payload_size = Some(0);
    assert!(config.validate().is_err());

    let mut config = config_for(opencode());
    config.networking.quota = Some(0);
    assert!(config.validate().is_err());
}

#[test]
fn networking_defaults_to_use_default_whitelist() {
    let config = config_for(opencode());
    assert!(config.networking.use_default_whitelist);
    assert_eq!(
        default_whitelist(),
        [
            "opencode.ai",
            "mcp.exa.ai",
            "api.exa.ai",
            "api.parallel.ai",
            "search.parallel.ai",
            "task-mcp.parallel.ai",
            "api.tavily.com",
            "api.search.brave.com",
            "google.serper.dev",
            "api.anthropic.com",
        ]
    );
}

#[test]
fn a_config_is_looked_for_in_three_places() {
    let dir = Some("/home/me/.config".to_string());
    match resolve_config(Some("my.toml".to_string()), true, dir.clone(), true) {
        Ok(ConfigSource::Explicit(path)) => assert_eq!(path, "my.toml"),
        _ => panic!("an explicit path goes first"),
    }
    assert!(matches!(
        resolve_config(None, true, dir.clone(), true),
        Ok(ConfigSource::Local)
    ));
    match resolve_config(None, false, dir.clone(), true) {
        Ok(ConfigSource::Global(path)) => {
            assert_eq!(path, global_config_path("/home/me/.config"));
            assert_eq!(path, "/home/me/.config/pithos/pithos.toml");
        }
        _ => panic!("the global file is left"),
    }
    match resolve_config(None, false, dir, false) {
        Err(message) => assert_eq!(
            message,
            "no config found: tried ./pithos.toml and /home/me/.config/pithos/pithos.toml"
        ),
        Ok(_) => panic!("there is no file"),
    }
    assert!(resolve_config(None, false, None, true).is_err());
    assert_eq!(
        global_library_path("/home/me/.config"),
        "/home/me/.config/pithos/toolchains.toml"
    );
}
