use std::collections::hash_map::DefaultHasher;
use std::hash::{Hash, Hasher};

use pithos::builtin::Harness;
use pithos::config::{
    default_base_image, default_install, default_workspace, Config, Networking,
};
use pithos::image::{digest_of, install_line, json_command, mise_install_lines, shell_quote};
use pithos::toolchain::{Download, ToolchainDef, UvTool};

const UID: u32 = 1000;
const GID: u32 = 1001;

fn words(list: &[&str]) -> Vec<String> {
    list.iter().map(|word| word.to_string()).collect()
}

fn pairs(list: &[(&str, &str)]) -> Vec<(String, String)> {
    list.iter().map(|(key, value)| (key.to_string(), value.to_string())).collect()
}

fn bare() -> Config {
    Config {
        base_image: default_base_image(),
        workspace: default_workspace(),
        image_tag: None,
        install: default_install(),
        toolchains: Vec::new(),
        toolchain_defs: Vec::new(),
        cargo: Vec::new(),
        npm: Vec::new(),
        bun: Vec::new(),
        uv: Vec::new(),
        downloads: Vec::new(),
        mise: Vec::new(),
        harness: Harness::Opencode {
            command: words(&["opencode", "/workspace"]),
            allowlist: None,
            credentials: false,
        },
        global_toolchains: Vec::new(),
        environment: Vec::new(),
        ephemeral: Vec::new(),
        ignore: Vec::new(),
        diff_viewer: None,
        copy_strategy: None,
        networking: Networking::default(),
        audio: false,
    }
}

fn with_toolchains(selected: &[&str], defs: Vec<(&str, ToolchainDef)>) -> Config {
    let mut config = bare();
    config.toolchains = words(selected);
    config.toolchain_defs = defs.into_iter().map(|(name, def)| (name.to_string(), def)).collect();
    config
}

fn rendered(config: &Config) -> String {
    config.containerfile(UID, GID).unwrap()
}

fn tool(name: &str, python: Option<&str>, run: Option<&str>) -> UvTool {
    UvTool {
        name: name.to_string(),
        python: python.map(|text| text.to_string()),
        run: run.map(|text| text.to_string()),
    }
}

fn with_rust_toolchain() -> Config {
    with_toolchains(
        &["rust"],
        vec![(
            "rust",
            ToolchainDef {
                install: words(&["gcc", "libc6-dev"]),
                mise: words(&["rust"]),
                extra: words(&["mise use -g --yes 'rust-analyzer'"]),
                ..Default::default()
            },
        )],
    )
}

fn with_python_toolchain() -> Config {
    with_toolchains(
        &["python"],
        vec![(
            "python",
            ToolchainDef {
                mise: words(&["python", "uv"]),
                extra: words(&["mise use -g --yes 'ruff'", "npm install --global pyright"]),
                ..Default::default()
            },
        )],
    )
}

fn with_cargo() -> Config {
    let mut config = bare();
    config.cargo = words(&["just"]);
    config
}

fn with_uv() -> Config {
    let mut config = bare();
    config.uv = vec![
        tool("serena-agent", Some("3.13"), Some("serena init")),
        tool("plain-tool", None, None),
    ];
    config
}

#[test]
fn cargo_block_bootstraps_rust_via_mise() {
    let file = rendered(&with_cargo());
    assert!(file.contains("RUN cargo install --root /usr/local 'just'\n"));
    let mise = file.find("(command -v mise").unwrap();
    let rust = file.find("mise use -g --yes 'rust'\n").unwrap();
    let install = file.find("RUN cargo install --root /usr/local 'just'\n").unwrap();
    assert!(mise < rust && rust < install);
    assert!(file.contains(
        "ENV MISE_DATA_DIR=/usr/local/share/mise PATH=/usr/local/share/mise/shims:$PATH\n"
    ));
    assert!(file.contains("apt-get install -y --no-install-recommends 'git' 'gcc'"));
}

#[test]
fn build_steps_write_to_the_runtime_home() {
    let file = rendered(&with_cargo());
    assert!(
        file.contains(&format!(
            "RUN mkdir -p '/home/agent' && (useradd -o -m -d '/home/agent' -u {UID} -g {GID} -s /bin/sh 'agent' || true)\n"
        )),
        "preamble missing: {file}"
    );
    assert!(file.contains("ENV HOME=/home/agent\n"));
    assert!(file.contains("RUN cargo install --root /usr/local 'just'\n"));
    assert!(file.contains(&format!("RUN chown -R {UID}:{GID} '/home/agent'\n")));
    let chown = file.find(&format!("RUN chown -R {UID}:{GID} '/home/agent'\n")).unwrap();
    assert!(chown < file.find("CMD ").unwrap());
}

#[test]
fn package_lists_infer_providers_before_use() {
    let mut config = bare();
    config.mise = words(&["deno"]);
    config.cargo = words(&["just"]);
    config.bun = words(&["htmx"]);
    config.uv = vec![tool("serena-agent", Some("3.13"), Some("serena init"))];
    let file = rendered(&config);
    assert!(file.contains("mise use -g --yes 'deno' 'rust' 'bun' 'python' 'uv'\n"));
    assert!(file.contains("ENV UV_TOOL_BIN_DIR=/usr/local/bin\n"));
    let mise = file.find("mise use -g --yes 'deno'").unwrap();
    let uv_env = file.find("ENV UV_TOOL_BIN_DIR=/usr/local/bin\n").unwrap();
    let cargo = file.find("RUN cargo install --root /usr/local 'just'\n").unwrap();
    let bun = file.find("RUN bun install --global 'htmx'\n").unwrap();
    let uv_install = file.find("RUN uv tool install 'serena-agent'").unwrap();
    assert!(mise < cargo);
    assert!(mise < bun);
    assert!(uv_env < uv_install && uv_install < file.find("RUN serena init\n").unwrap());
}

#[test]
fn user_defined_rust_block_precedes_global_cargo_install() {
    let mut config = with_toolchains(
        &["rust"],
        vec![(
            "rust",
            ToolchainDef {
                install: words(&["gcc", "libc6-dev"]),
                mise: words(&["rust"]),
                ..Default::default()
            },
        )],
    );
    config.cargo = words(&["just"]);
    let file = rendered(&config);
    let rust = file.find("mise use -g --yes 'rust'\n").unwrap();
    let install = file.find("RUN cargo install --root /usr/local 'just'\n").unwrap();
    assert!(rust < install);
}

#[test]
fn mise_block_bootstraps_mise_then_installs_tools() {
    let mut config = bare();
    config.mise = words(&["neovim", "lua-language-server"]);
    let file = rendered(&config);
    assert!(file.contains(
        "ENV MISE_DATA_DIR=/usr/local/share/mise PATH=/usr/local/share/mise/shims:$PATH"
    ));
    assert!(file.contains("(command -v mise >/dev/null 2>&1 || (apt-get update && apt-get install -y --no-install-recommends curl ca-certificates && rm -rf /var/lib/apt/lists/* && curl -fsSL https://mise.run | MISE_INSTALL_PATH=/usr/local/bin/mise sh)) && mise use -g --yes 'neovim' 'lua-language-server'\n"));
}

#[test]
fn mise_block_absent_when_no_tools() {
    assert!(!rendered(&bare()).contains("mise"));
}

#[test]
fn scoped_mise_list_renders_before_extra() {
    let config = with_toolchains(
        &["lua"],
        vec![(
            "lua",
            ToolchainDef {
                mise: words(&["stylua"]),
                extra: words(&["stylua --version"]),
                ..Default::default()
            },
        )],
    );
    assert!(rendered(&config).contains("mise use -g --yes 'stylua'\nRUN stylua --version\n"));
}

#[test]
fn bare_mise_toolchain_installs_runtime_only() {
    let config = with_toolchains(
        &["runtime"],
        vec![(
            "runtime",
            ToolchainDef {
                install: words(&["curl", "ca-certificates", "git"]),
                env: pairs(&[
                    ("MISE_DATA_DIR", "/usr/local/share/mise"),
                    ("PATH", "/usr/local/share/mise/shims:$PATH"),
                ]),
                run: words(&[
                    "curl -fsSL https://mise.run | MISE_INSTALL_PATH=/usr/local/bin/mise sh",
                ]),
                ..Default::default()
            },
        )],
    );
    let file = rendered(&config);
    assert!(file
        .contains("RUN curl -fsSL https://mise.run | MISE_INSTALL_PATH=/usr/local/bin/mise sh\n"));
    assert!(file.contains(
        "ENV MISE_DATA_DIR=/usr/local/share/mise PATH=/usr/local/share/mise/shims:$PATH"
    ));
    assert!(!file.contains("mise use -g"));
}

#[test]
fn every_line_is_a_valid_instruction() {
    let mut config = with_toolchains(
        &["custom"],
        vec![(
            "custom",
            ToolchainDef {
                install: words(&["curl"]),
                env: pairs(&[("FOO", "bar")]),
                run: words(&["make bootstrap"]),
                extra: words(&["custom --version"]),
                cargo: words(&["fd-find"]),
                npm: words(&["tsx"]),
                bun: words(&["zip"]),
                uv: vec![tool("ruff", None, None)],
                mise: words(&["stylua"]),
                downloads: vec![Download {
                    url: "https://example.com/custom.sh".to_string(),
                    env: Vec::new(),
                }],
                ..Default::default()
            },
        )],
    );
    config.install = words(&["git"]);
    config.cargo = words(&["just"]);
    config.npm = words(&["prettier"]);
    config.bun = words(&["htmx"]);
    config.uv = vec![tool("serena-agent", Some("3.13"), Some("serena init"))];
    config.mise = words(&["neovim"]);
    config.downloads =
        vec![Download { url: "https://example.com/install.sh".to_string(), env: Vec::new() }];
    for line in rendered(&config).lines() {
        let line = line.trim();
        if line.is_empty() {
            continue;
        }
        let instruction = line.split_whitespace().next().unwrap();
        assert!(
            matches!(
                instruction,
                "FROM"
                    | "WORKDIR"
                    | "RUN"
                    | "ENV"
                    | "CMD"
                    | "ARG"
                    | "LABEL"
                    | "COPY"
                    | "ADD"
                    | "EXPOSE"
                    | "VOLUME"
                    | "USER"
                    | "ENTRYPOINT"
                    | "SHELL"
                    | "STOPSIGNAL"
                    | "HEALTHCHECK"
                    | "ONBUILD"
                    | "COMMENT"
            ),
            "unexpected instruction {instruction:?} in line {line:?}"
        );
    }
}

#[test]
fn cargo_block_absent_when_no_crates() {
    assert!(!rendered(&bare()).contains("cargo install"));
}

#[test]
fn toolchain_flag_selects_user_defined_toolchain_and_retags() {
    let mut config = with_toolchains(
        &[],
        vec![("lua", ToolchainDef { mise: words(&["lua"]), ..Default::default() })],
    );
    config.with_toolchain(Some("lua".to_string()));
    assert!(rendered(&config).contains("mise use -g --yes 'lua'\n"));
    assert_eq!(config.image_tag(), "localhost/pithos-opencode:latest-lua");
}

#[test]
fn rust_toolchain_installs_mise_rust_analyzer_and_build_deps() {
    let file = rendered(&with_rust_toolchain());
    assert!(file.contains("mise use -g --yes 'rust'\n"));
    assert!(file.contains("apt-get install -y --no-install-recommends 'gcc' 'libc6-dev'"));
    assert!(file.contains("RUN mise use -g --yes 'rust-analyzer'\n"));
    assert!(!file.contains("cargo install"));
}

#[test]
fn python_toolchain_installs_python_uv_ruff_and_pyright() {
    let file = rendered(&with_python_toolchain());
    assert!(file.contains("mise use -g --yes 'python' 'uv'\n"));
    assert!(file.contains("RUN mise use -g --yes 'ruff'\n"));
    assert!(file.contains("RUN npm install --global pyright\n"));
}

#[test]
fn uv_without_toolchain_skips_ruff_and_pyright() {
    let file = rendered(&with_uv());
    assert!(file.contains("RUN uv tool install 'serena-agent' --python '3.13'\n"));
    assert!(!file.contains("ruff"));
    assert!(!file.contains("pyright"));
}

#[test]
fn uv_block_installs_uv_and_tools() {
    let mut config = with_toolchains(
        &["python"],
        vec![("python", ToolchainDef { mise: words(&["python", "uv"]), ..Default::default() })],
    );
    config.uv = vec![
        tool("serena-agent", Some("3.13"), Some("serena init")),
        tool("plain-tool", None, None),
    ];
    let file = rendered(&config);
    assert!(file.contains("mise use -g --yes 'python' 'uv'\n"));
    assert!(file.contains(
        "ENV MISE_DATA_DIR=/usr/local/share/mise PATH=/usr/local/share/mise/shims:$PATH"
    ));
    assert!(file.contains("RUN uv tool install 'serena-agent' --python '3.13'\nRUN serena init"));
    assert!(file.contains("RUN uv tool install 'plain-tool'\n"));
}

#[test]
fn custom_definition_expands_env_install_run_extra() {
    let config = with_toolchains(
        &["golang"],
        vec![(
            "golang",
            ToolchainDef {
                install: words(&["ca-certificates"]),
                env: pairs(&[("PATH", "/usr/local/go/bin:$PATH")]),
                run: words(&["curl -fsSL https://go.dev/dl/go.tar.gz | tar -C /usr/local -xz"]),
                extra: words(&["go version"]),
                ..Default::default()
            },
        )],
    );
    let file = rendered(&config);
    assert!(file.contains("ENV PATH=/usr/local/go/bin:$PATH\n"));
    assert!(file.contains("apt-get install -y --no-install-recommends 'ca-certificates' && rm -rf /var/lib/apt/lists/*\n"));
    assert!(file.contains(
        "RUN curl -fsSL https://go.dev/dl/go.tar.gz | tar -C /usr/local -xz\nRUN go version\n"
    ));
}

fn golang(run: &str) -> ToolchainDef {
    ToolchainDef { run: words(&[run]), extra: words(&["go version"]), ..Default::default() }
}

#[test]
fn extra_steps_only_when_explicitly_selected() {
    let config = with_toolchains(&["golang"], vec![("golang", golang("install-go"))]);
    assert!(rendered(&config).contains("RUN install-go\nRUN go version\n"));
}

#[test]
fn extra_steps_skipped_for_undefined_selection() {
    let config = with_toolchains(
        &["golang"],
        vec![
            ("golang", golang("install-go")),
            (
                "other",
                ToolchainDef {
                    run: words(&["install-other"]),
                    extra: words(&["other --version"]),
                    ..Default::default()
                },
            ),
        ],
    );
    let file = rendered(&config);
    assert!(file.contains("RUN install-go\nRUN go version\n"));
    assert!(!file.contains("install-other"));
    assert!(!file.contains("other --version"));
}

#[test]
fn scoped_package_lists_expand_inside_their_block() {
    let config = with_toolchains(
        &["web"],
        vec![(
            "web",
            ToolchainDef {
                npm: words(&["typescript"]),
                bun: words(&["htmx"]),
                uv: vec![tool("ruff", Some("3.13"), None)],
                downloads: vec![Download {
                    url: "https://example.com/install.sh".to_string(),
                    env: pairs(&[("FOO", "bar")]),
                }],
                ..Default::default()
            },
        )],
    );
    let file = rendered(&config);
    assert!(file.contains("RUN npm install --global 'typescript'\n"));
    assert!(file.contains("bun install --global 'htmx'\n"));
    assert!(file.contains("RUN uv tool install 'ruff' --python '3.13'\n"));
    assert!(file.contains("curl -fsSL 'https://example.com/install.sh' | FOO='bar' sh"));
    assert!(!file.contains("pyright"));
}

#[test]
fn includes_install_members_and_run_their_extras() {
    let config = with_toolchains(
        &["fullstack"],
        vec![
            (
                "fullstack",
                ToolchainDef { includes: words(&["rust", "web"]), ..Default::default() },
            ),
            (
                "rust",
                ToolchainDef {
                    mise: words(&["rust"]),
                    extra: words(&["mise use -g --yes 'rust-analyzer'"]),
                    ..Default::default()
                },
            ),
            (
                "web",
                ToolchainDef {
                    run: words(&["npm install --global typescript"]),
                    extra: words(&["tsc --version"]),
                    ..Default::default()
                },
            ),
        ],
    );
    let file = rendered(&config);
    assert!(file.contains("mise use -g --yes 'rust'\n"));
    assert!(file.contains("RUN mise use -g --yes 'rust-analyzer'\n"));
    assert!(file.contains("RUN npm install --global typescript\n"));
    assert!(file.contains("RUN tsc --version\n"));
}

#[test]
fn digest_changes_with_custom_definition_edit() {
    let first = with_toolchains(&["golang"], vec![("golang", golang("install-go"))]);
    let second = with_toolchains(&["golang"], vec![("golang", golang("install-go-2"))]);
    assert_ne!(first.digest(UID, GID).unwrap(), second.digest(UID, GID).unwrap());
}

#[test]
fn uv_block_absent_when_no_tools() {
    assert!(!rendered(&bare()).contains("uv"));
}

#[test]
fn containerfile_opens_tmp_to_all_users() {
    let file = rendered(&bare());
    let chmod = file.find("RUN chmod -R a+rwX /tmp\n").unwrap();
    assert!(chmod < file.find("CMD ").unwrap());
}

#[test]
fn config_digest_changes_with_tools() {
    let mut config = with_uv();
    config.uv[0].python = Some("3.12".to_string());
    assert_ne!(config.digest(UID, GID).unwrap(), with_uv().digest(UID, GID).unwrap());
}

#[test]
fn download_generates_curl_piped_run() {
    let mut config = bare();
    config.downloads = vec![Download {
        url: "https://deno.land/install.sh".to_string(),
        env: pairs(&[("DENO_INSTALL", "/usr/local")]),
    }];
    assert!(rendered(&config).contains(
        "RUN apt-get update && apt-get install -y --no-install-recommends curl ca-certificates unzip && rm -rf /var/lib/apt/lists/* && curl -fsSL 'https://deno.land/install.sh' | DENO_INSTALL='/usr/local' sh"
    ));
}

#[test]
fn download_without_env_pipes_to_sh() {
    let mut config = bare();
    config.downloads =
        vec![Download { url: "https://example.com/install.sh".to_string(), env: Vec::new() }];
    assert!(rendered(&config).contains("curl -fsSL 'https://example.com/install.sh' | sh"));
}

#[test]
fn quotes_survive_the_shell() {
    assert_eq!(shell_quote("plain"), "'plain'");
    assert_eq!(shell_quote("it's"), "'it'\\''s'");
    assert_eq!(shell_quote(""), "''");
}

#[test]
fn empty_lists_install_nothing() {
    assert!(install_line("npm install --global", "", &[]).is_none());
    assert!(mise_install_lines(&[]).is_none());
    assert_eq!(
        install_line("npm install --global", "", &words(&["a", "b c"])),
        Some("RUN npm install --global 'a' 'b c'\n".to_string())
    );
}

#[test]
fn commands_are_written_as_json() {
    let text = json_command(&words(&["agent", "say \"hi\""]));
    let parsed: serde_json::Value = serde_json::from_str(&text).unwrap();
    let list: Vec<&str> =
        parsed.as_array().unwrap().iter().map(|item| item.as_str().unwrap()).collect();
    assert_eq!(list, ["agent", "say \"hi\""]);
}

#[test]
fn digests_are_sixteen_digits_of_the_text() {
    let digest = digest_of(&"FROM scratch\n".to_string());
    assert_eq!(digest.len(), 16);
    assert!(digest.chars().all(|c| c.is_ascii_hexdigit()));
    assert_ne!(digest, "FROM scratch\n");
    let mut hasher = DefaultHasher::new();
    "FROM scratch\n".to_string().hash(&mut hasher);
    assert_eq!(digest, format!("{:016x}", hasher.finish()));
    assert_ne!(digest, digest_of(&"FROM scratch \n".to_string()));
}

#[test]
fn an_image_is_up_to_date_while_its_label_is_the_digest() {
    let config = bare();
    let digest = config.digest(UID, GID).unwrap();
    let label = format!("{digest}\n");
    assert!(config.image_up_to_date(Some(label.as_bytes()), UID, GID).unwrap());
    assert!(!config.image_up_to_date(Some(b"0123456789abcdef\n"), UID, GID).unwrap());
    assert!(!config.image_up_to_date(None, UID, GID).unwrap());
    assert!(config.build_args(&digest).iter().any(|arg| arg.contains(&digest)));
}

fn steps_of(config: &Config) -> Vec<String> {
    rendered(config).lines().map(|line| line.to_string()).collect()
}

#[test]
fn audio_installs_the_sound_libraries() {
    let mut config = bare();
    let quiet = rendered(&config);
    assert!(!quiet.contains("libpulse0"));
    config.audio = true;
    let loud = rendered(&config);
    let line = "RUN apt-get update && apt-get install -y --no-install-recommends \
                'libasound2' 'libpulse0' && rm -rf /var/lib/apt/lists/*\n";
    assert!(loud.contains(line), "{loud}");
    assert_eq!(loud.replacen(line, "", 1), quiet);
}

#[test]
fn system_directories_lose_their_write_bits_at_the_end() {
    let steps = steps_of(&bare());
    let sealing = steps
        .iter()
        .position(|step| step == "RUN find /usr /etc -xdev -type d -exec chmod a-w {} +")
        .unwrap();
    let command = steps.iter().position(|step| step.starts_with("CMD ")).unwrap();
    let last_install = steps.iter().rposition(|step| step.contains("npm install")).unwrap();
    assert!(last_install < sealing && sealing < command);
}
