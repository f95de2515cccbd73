//! The definitions that come with the library. One of them is of a harness
//! whose command and files are named after its product: it is made from those
//! names.

use super::def::{
    credentials, definitions, mounts, AllowlistDef, AllowlistDefView, CredentialDef,
    CredentialDefView, HarnessDef, HarnessDefView, MountDef, MountDefView,
};
use super::types::{
    Access, AllowlistFormat, HarnessDependency, HostBase, HostBaseView, MountType, OnMissing,
    Platform, Translation,
};
use crate::builtin::{Names, NamesView};
use crate::text::{cat2, cat3, cat4};
use vstd::prelude::*;
use vstd::string::*;

verus! {

pub open spec fn mount_of(
    host: Seq<char>,
    target: Seq<char>,
    mount_type: MountType,
    access: Access,
    host_base: HostBaseView,
) -> MountDefView {
    MountDefView { host, target, mount_type, access, host_base }
}

fn mount(
    host: &str,
    target: &str,
    mount_type: MountType,
    access: Access,
    host_base: HostBase,
) -> (r: MountDef)
    ensures
        r@ == mount_of(host@, target@, mount_type, access, host_base@),
{
    MountDef { host: host.to_owned(), target: target.to_owned(), mount_type, access, host_base }
}

/// A credential that is warned about where it is missing.
pub open spec fn credential_of(
    source: Seq<char>,
    target: Seq<char>,
    platforms: Option<Seq<Platform>>,
    host_base: HostBaseView,
) -> CredentialDefView {
    CredentialDefView { source, target, platforms, host_base, on_missing: OnMissing::Warn }
}

fn credential(
    source: &str,
    target: &str,
    platforms: Option<Vec<Platform>>,
    host_base: HostBase,
) -> (r: CredentialDef)
    ensures
        r@ == credential_of(
            source@,
            target@,
            (match platforms {
                Some(list) => Some(list@),
                None => None,
            }),
            host_base@,
        ),
{
    CredentialDef {
        source: source.to_owned(),
        target: target.to_owned(),
        platforms,
        host_base,
        on_missing: OnMissing::Warn,
    }
}

/// `rest` behind the name of a harness's directory, below the agent's home.
pub open spec fn inside(base: Seq<char>, rest: Seq<char>) -> Seq<char> {
    "/home/agent/."@ + base + rest
}

fn in_home(base: &str, rest: &str) -> (r: String)
    ensures
        r@ == inside(base@, rest@),
{
    cat3("/home/agent/.", base, rest)
}

/// A piece of the user's own configuration, shown to the agent as it is.
pub open spec fn own_file(base: Seq<char>, file: Seq<char>) -> MountDefView {
    mount_of(
        "."@ + base + "/"@ + file,
        inside(base, "/"@ + file),
        MountType::Config,
        Access::Ro,
        HostBaseView::Home,
    )
}

fn own_file_mount(base: &str, file: &str) -> (r: MountDef)
    ensures
        r@ == own_file(base@, file@),
{
    mount(
        cat4(".", base, "/", file).as_str(),
        in_home(base, cat2("/", file).as_str()).as_str(),
        MountType::Config,
        Access::Ro,
        HostBase::Home,
    )
}

pub open spec fn claude_code_mounts(names: NamesView) -> Seq<MountDefView> {
    seq![
        mount_of(
            ""@,
            inside(names.base, "/todos"@),
            MountType::Ephemeral,
            Access::Tmpfs,
            HostBaseView::Home,
        ),
        mount_of(
            ""@,
            inside(names.base, "/shell-snapshots"@),
            MountType::Ephemeral,
            Access::Tmpfs,
            HostBaseView::Home,
        ),
        mount_of(
            ""@,
            inside(names.base, "/statsig"@),
            MountType::Ephemeral,
            Access::Tmpfs,
            HostBaseView::Home,
        ),
        mount_of(
            names.base + ".json"@,
            inside(names.base, ".json"@),
            MountType::State,
            Access::Pinned,
            HostBaseView::Data(names.base + "-code"@),
        ),
        mount_of(
            "projects"@,
            inside(names.base, "/projects"@),
            MountType::State,
            Access::PinnedDir,
            HostBaseView::Data(names.base + "-code"@),
        ),
        mount_of(
            "history.jsonl"@,
            inside(names.base, "/history.jsonl"@),
            MountType::State,
            Access::Pinned,
            HostBaseView::Data(names.base + "-code"@),
        ),
        mount_of(
            "settings.json"@,
            inside(names.base, "/settings.json"@),
            MountType::Generated,
            Access::Ro,
            HostBaseView::Runtime,
        ),
        own_file(names.base, names.memory),
        own_file(names.base, "keybindings.json"@),
        own_file(names.base, "skills"@),
        own_file(names.base, "agents"@),
        own_file(names.base, "commands"@),
        own_file(names.base, "rules"@),
        own_file(names.base, "output-styles"@),
        own_file(names.base, "themes"@),
        own_file(names.base, "workflows"@),
    ]
}

pub open spec fn claude_code_credentials(names: NamesView) -> Seq<CredentialDefView> {
    seq![
        credential_of(
            "keychain:"@ + names.title + "-credentials"@,
            inside(names.base, "/.credentials.json"@),
            Some(seq![Platform::Macos]),
            HostBaseView::Home,
        ),
        credential_of(
            "file:."@ + names.base + "/.credentials.json"@,
            inside(names.base, "/.credentials.json"@),
            None,
            HostBaseView::Home,
        ),
    ]
}

/// The definition of a `ClaudeCode` harness under the given names.
pub open spec fn claude_code_definition(names: NamesView) -> HarnessDefView {
    HarnessDefView {
        name: names.base + "-code"@,
        install: "npm install --global @anthropic-ai/"@ + names.base + "-code"@,
        command: seq![names.base],
        depends_on: seq![HarnessDependency::Npm],
        mounts: claude_code_mounts(names),
        allowlist: AllowlistDefView {
            translation: Translation::ClaudeSettings,
            env_var: None,
            target: inside(names.base, "/settings.json"@),
            format: AllowlistFormat::Json,
        },
        credentials: claude_code_credentials(names),
    }
}

pub fn claude_code(names: &Names) -> (r: HarnessDef)
    ensures
        r@ == claude_code_definition(names@),
{
    let base = names.base.as_str();
    let command = vec![names.base.clone()];
    let list = vec![
        mount(
            "",
            in_home(base, "/todos").as_str(),
            MountType::Ephemeral,
            Access::Tmpfs,
            HostBase::Home,
        ),
        mount(
            "",
            in_home(base, "/shell-snapshots").as_str(),
            MountType::Ephemeral,
            Access::Tmpfs,
            HostBase::Home,
        ),
        mount(
            "",
            in_home(base, "/statsig").as_str(),
            MountType::Ephemeral,
            Access::Tmpfs,
            HostBase::Home,
        ),
        mount(
            cat2(base, ".json").as_str(),
            in_home(base, ".json").as_str(),
            MountType::State,
            Access::Pinned,
            HostBase::Data(cat2(base, "-code")),
        ),
        mount(
            "projects",
            in_home(base, "/projects").as_str(),
            MountType::State,
            Access::PinnedDir,
            HostBase::Data(cat2(base, "-code")),
        ),
        mount(
            "history.jsonl",
            in_home(base, "/history.jsonl").as_str(),
            MountType::State,
            Access::Pinned,
            HostBase::Data(cat2(base, "-code")),
        ),
        mount(
            "settings.json",
            in_home(base, "/settings.json").as_str(),
            MountType::Generated,
            Access::Ro,
            HostBase::Runtime,
        ),
        own_file_mount(base, names.memory.as_str()),
        own_file_mount(base, "keybindings.json"),
        own_file_mount(base, "skills"),
        own_file_mount(base, "agents"),
        own_file_mount(base, "commands"),
        own_file_mount(base, "rules"),
        own_file_mount(base, "output-styles"),
        own_file_mount(base, "themes"),
        own_file_mount(base, "workflows"),
    ];
    let secrets = vec![
        credential(
            cat3("keychain:", names.title.as_str(), "-credentials").as_str(),
            in_home(base, "/.credentials.json").as_str(),
            Some(vec![Platform::Macos]),
            HostBase::Home,
        ),
        credential(
            cat3("file:.", base, "/.credentials.json").as_str(),
            in_home(base, "/.credentials.json").as_str(),
            None,
            HostBase::Home,
        ),
    ];
    assert(mounts(list@) =~= claude_code_mounts(names@));
    assert(secrets@[0]@.platforms->Some_0 =~= seq![Platform::Macos]);
    assert(credentials(secrets@) =~= claude_code_credentials(names@));
    let r = HarnessDef {
        name: cat2(base, "-code"),
        install: cat3("npm install --global @anthropic-ai/", base, "-code"),
        command,
        depends_on: vec![HarnessDependency::Npm],
        mounts: list,
        allowlist: AllowlistDef {
            translation: Translation::ClaudeSettings,
            env_var: None,
            target: in_home(base, "/settings.json"),
            format: AllowlistFormat::Json,
        },
        credentials: secrets,
    };
    assert(r@.command =~= claude_code_definition(names@).command);
    assert(r@.depends_on =~= claude_code_definition(names@).depends_on);
    r
}

pub open spec fn codex_mounts() -> Seq<MountDefView> {
    seq![
        mount_of(
            "state"@,
            "/home/agent/.codex"@,
            MountType::State,
            Access::PinnedDir,
            HostBaseView::Data("codex"@),
        ),
        mount_of(
            ""@,
            "/home/agent/.codex/log"@,
            MountType::Ephemeral,
            Access::Tmpfs,
            HostBaseView::Home,
        ),
        mount_of(
            ""@,
            "/home/agent/.codex/cache"@,
            MountType::Ephemeral,
            Access::Tmpfs,
            HostBaseView::Home,
        ),
        mount_of(
            ""@,
            "/home/agent/.codex/tmp"@,
            MountType::Ephemeral,
            Access::Tmpfs,
            HostBaseView::Home,
        ),
        mount_of(
            ""@,
            "/home/agent/.codex/.tmp"@,
            MountType::Ephemeral,
            Access::Tmpfs,
            HostBaseView::Home,
        ),
    ]
}

pub open spec fn codex_definition() -> HarnessDefView {
    HarnessDefView {
        name: "codex"@,
        install: "npm install --global @openai/codex"@,
        command: seq!["codex"@],
        depends_on: seq![HarnessDependency::Npm],
        mounts: codex_mounts(),
        allowlist: AllowlistDefView {
            translation: Translation::Nothing,
            env_var: None,
            target: "/home/agent/.codex/config.toml"@,
            format: AllowlistFormat::Toml,
        },
        credentials: seq![
            credential_of(
                "file:.codex/auth.json"@,
                "/home/agent/.codex/auth.json"@,
                None,
                HostBaseView::Home,
            ),
        ],
    }
}

fn codex() -> (r: HarnessDef)
    ensures
        r@ == codex_definition(),
{
    let command = vec!["codex".to_owned()];
    let list = vec![
        mount(
            "state",
            "/home/agent/.codex",
            MountType::State,
            Access::PinnedDir,
            HostBase::Data("codex".to_owned()),
        ),
        mount("", "/home/agent/.codex/log", MountType::Ephemeral, Access::Tmpfs, HostBase::Home),
        mount("", "/home/agent/.codex/cache", MountType::Ephemeral, Access::Tmpfs, HostBase::Home),
        mount("", "/home/agent/.codex/tmp", MountType::Ephemeral, Access::Tmpfs, HostBase::Home),
        mount("", "/home/agent/.codex/.tmp", MountType::Ephemeral, Access::Tmpfs, HostBase::Home),
    ];
    let secrets = vec![
        credential("file:.codex/auth.json", "/home/agent/.codex/auth.json", None, HostBase::Home),
    ];
    assert(mounts(list@) =~= codex_mounts());
    let r = HarnessDef {
        name: "codex".to_owned(),
        install: "npm install --global @openai/codex".to_owned(),
        command,
        depends_on: vec![HarnessDependency::Npm],
        mounts: list,
        allowlist: AllowlistDef {
            translation: Translation::Nothing,
            env_var: None,
            target: "/home/agent/.codex/config.toml".to_owned(),
            format: AllowlistFormat::Toml,
        },
        credentials: secrets,
    };
    assert(r@.command =~= codex_definition().command);
    assert(r@.depends_on =~= codex_definition().depends_on);
    assert(r@.credentials =~= codex_definition().credentials);
    r
}

pub open spec fn opencode_mounts() -> Seq<MountDefView> {
    seq![
        mount_of(
            ""@,
            "/home/agent/.local/share/opencode"@,
            MountType::Ephemeral,
            Access::Tmpfs,
            HostBaseView::Home,
        ),
        mount_of(
            ""@,
            "/home/agent/.local/state/opencode"@,
            MountType::Ephemeral,
            Access::Tmpfs,
            HostBaseView::Home,
        ),
        mount_of(
            ""@,
            "/home/agent/.cache"@,
            MountType::Ephemeral,
            Access::Tmpfs,
            HostBaseView::Home,
        ),
        mount_of(
            ""@,
            "/home/agent/.serena"@,
            MountType::Ephemeral,
            Access::Tmpfs,
            HostBaseView::Home,
        ),
        mount_of(
            "opencode.db"@,
            "/home/agent/.local/share/opencode/opencode.db"@,
            MountType::State,
            Access::Pinned,
            HostBaseView::Data("opencode"@),
        ),
        mount_of(
            "opencode.db-wal"@,
            "/home/agent/.local/share/opencode/opencode.db-wal"@,
            MountType::State,
            Access::Pinned,
            HostBaseView::Data("opencode"@),
        ),
        mount_of(
            "opencode.db-shm"@,
            "/home/agent/.local/share/opencode/opencode.db-shm"@,
            MountType::State,
            Access::Pinned,
            HostBaseView::Data("opencode"@),
        ),
        mount_of(
            "kv.json"@,
            "/home/agent/.local/state/opencode/kv.json"@,
            MountType::State,
            Access::Pinned,
            HostBaseView::State("opencode"@),
        ),
        mount_of(
            "session.json"@,
            "/home/agent/.local/state/opencode/session.json"@,
            MountType::State,
            Access::Pinned,
            HostBaseView::State("opencode"@),
        ),
        mount_of(
            "model.json"@,
            "/home/agent/.local/state/opencode/model.json"@,
            MountType::State,
            Access::Pinned,
            HostBaseView::State("opencode"@),
        ),
        mount_of(
            "prompt-history.jsonl"@,
            "/home/agent/.local/state/opencode/prompt-history.jsonl"@,
            MountType::State,
            Access::Pinned,
            HostBaseView::State("opencode"@),
        ),
        mount_of(
            ".config/opencode"@,
            "/home/agent/.config/opencode"@,
            MountType::Config,
            Access::Ro,
            HostBaseView::Home,
        ),
    ]
}

pub open spec fn opencode_definition() -> HarnessDefView {
    HarnessDefView {
        name: "opencode"@,
        install: "npm install --global opencode-ai"@,
        command: seq!["opencode"@, "/workspace"@],
        depends_on: seq![HarnessDependency::Npm],
        mounts: opencode_mounts(),
        allowlist: AllowlistDefView {
            translation: Translation::PassthroughEnv,
            env_var: Some("OPENCODE_CONFIG_CONTENT"@),
            target: "/home/agent/.config/opencode/opencode.json"@,
            format: AllowlistFormat::Json,
        },
        credentials: seq![
            credential_of(
                "file:auth.json"@,
                "/home/agent/.local/share/opencode/auth.json"@,
                None,
                HostBaseView::Data("opencode"@),
            ),
        ],
    }
}

fn opencode() -> (r: HarnessDef)
    ensures
        r@ == opencode_definition(),
{
    let command = vec!["opencode".to_owned(), "/workspace".to_owned()];
    let list = vec![
        mount(
            "",
            "/home/agent/.local/share/opencode",
            MountType::Ephemeral,
            Access::Tmpfs,
            HostBase::Home,
        ),
        mount(
            "",
            "/home/agent/.local/state/opencode",
            MountType::Ephemeral,
            Access::Tmpfs,
            HostBase::Home,
        ),
        mount("", "/home/agent/.cache", MountType::Ephemeral, Access::Tmpfs, HostBase::Home),
        mount("", "/home/agent/.serena", MountType::Ephemeral, Access::Tmpfs, HostBase::Home),
        mount(
            "opencode.db",
            "/home/agent/.local/share/opencode/opencode.db",
            MountType::State,
            Access::Pinned,
            HostBase::Data("opencode".to_owned()),
        ),
        mount(
            "opencode.db-wal",
            "/home/agent/.local/share/opencode/opencode.db-wal",
            MountType::State,
            Access::Pinned,
            HostBase::Data("opencode".to_owned()),
        ),
        mount(
            "opencode.db-shm",
            "/home/agent/.local/share/opencode/opencode.db-shm",
            MountType::State,
            Access::Pinned,
            HostBase::Data("opencode".to_owned()),
        ),
        mount(
            "kv.json",
            "/home/agent/.local/state/opencode/kv.json",
            MountType::State,
            Access::Pinned,
            HostBase::State("opencode".to_owned()),
        ),
        mount(
            "session.json",
            "/home/agent/.local/state/opencode/session.json",
            MountType::State,
            Access::Pinned,
            HostBase::State("opencode".to_owned()),
        ),
        mount(
            "model.json",
            "/home/agent/.local/state/opencode/model.json",
            MountType::State,
            Access::Pinned,
            HostBase::State("opencode".to_owned()),
        ),
        mount(
            "prompt-history.jsonl",
            "/home/agent/.local/state/opencode/prompt-history.jsonl",
            MountType::State,
            Access::Pinned,
            HostBase::State("opencode".to_owned()),
        ),
        mount(
            ".config/opencode",
            "/home/agent/.config/opencode",
            MountType::Config,
            Access::Ro,
            HostBase::Home,
        ),
    ];
    let secrets = vec![
        credential(
            "file:auth.json",
            "/home/agent/.local/share/opencode/auth.json",
            None,
            HostBase::Data("opencode".to_owned()),
        ),
    ];
    assert(mounts(list@) =~= opencode_mounts());
    let r = HarnessDef {
        name: "opencode".to_owned(),
        install: "npm install --global opencode-ai".to_owned(),
        command,
        depends_on: vec![HarnessDependency::Npm],
        mounts: list,
        allowlist: AllowlistDef {
            translation: Translation::PassthroughEnv,
            env_var: Some("OPENCODE_CONFIG_CONTENT".to_owned()),
            target: "/home/agent/.config/opencode/opencode.json".to_owned(),
            format: AllowlistFormat::Json,
        },
        credentials: secrets,
    };
    assert(r@.command =~= opencode_definition().command);
    assert(r@.depends_on =~= opencode_definition().depends_on);
    assert(r@.credentials =~= opencode_definition().credentials);
    r
}

/// The definitions that come with the library.
pub open spec fn embedded_definitions(names: NamesView) -> Seq<HarnessDefView> {
    seq![claude_code_definition(names), codex_definition(), opencode_definition()]
}

pub fn embedded(names: &Names) -> (r: Vec<HarnessDef>)
    ensures
        definitions(r@) == embedded_definitions(names@),
{
    let r = vec![claude_code(names), codex(), opencode()];
    assert(definitions(r@) =~= embedded_definitions(names@));
    r
}

/// No two of the definitions that come with the library have the same name.
pub proof fn lemma_embedded_distinct(names: NamesView, i: int, j: int)
    requires
        0 <= i < j < embedded_definitions(names).len(),
    ensures
        embedded_definitions(names)[i].name != embedded_definitions(names)[j].name,
{
    reveal_strlit("-code");
    reveal_strlit("codex");
    reveal_strlit("opencode");
    let name = names.base + "-code"@;
    assert(name[name.len() - 5] == '-');
    assert(name != "codex"@) by {
        assert("codex"@[0] == 'c');
    }
    assert(name != "opencode"@) by {
        assert("opencode"@[3] == 'n');
    }
    assert("codex"@.len() != "opencode"@.len());
}

} // verus!
