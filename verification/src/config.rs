//! The configuration of a project: what the image holds, which harness runs
//! in it, and how a session may reach the network.

use crate::builtin::Harness;
use crate::failure::{failed, failure, plain, Failure, FailureView};
use crate::order::{lemma_lex_asymmetric, lex_less, text_rank};
use crate::paths::{join_path, path_join};
use crate::text::{cat2, cat3, contains, contains_part, has_prefix, same_text, starts_with, texts};
use crate::toolchain::{
    def_named, entry_named, expand_selection, expansion, find_def, include_graph, is_merge,
    lemma_expansion_complete, lemma_graph_finite, lemma_named_iff_listed, merge_defs, names_of,
    problem_text, Download, IncludeGraph, Named, SelectionError, SelectionProblem, ToolchainDef,
    UvTool,
};
use vstd::prelude::*;
use vstd::string::*;

verus! {

/// Limits on what a session may send. Sizes are in KiB.
pub struct Networking {
    pub enabled: bool,
    /// The cap on the payload of one connection.
    pub payload_size: Option<u64>,
    /// The budget of one session.
    pub quota: Option<u64>,
    /// Hosts that neither limit touches, besides the default ones.
    pub whitelist: Vec<String>,
    pub use_default_whitelist: bool,
    /// Whether private destinations are out of reach, name lookups excepted.
    pub block_private: bool,
}

impl Default for Networking {
    fn default() -> (r: Self)
        ensures
            r.enabled,
            r.payload_size == Some(65_536u64),
            r.quota == Some(2_097_152u64),
            r.whitelist@.len() == 0,
            r.use_default_whitelist,
            r.block_private,
    {
        Networking {
            enabled: true,
            payload_size: Some(65_536),
            quota: Some(2_097_152),
            whitelist: Vec::new(),
            use_default_whitelist: true,
            block_private: true,
        }
    }
}

pub struct Config {
    pub base_image: String,
    pub workspace: String,
    pub image_tag: Option<String>,
    pub install: Vec<String>,
    pub toolchains: Vec<String>,
    /// The project's own definitions, by name.
    pub toolchain_defs: Vec<(String, ToolchainDef)>,
    pub cargo: Vec<String>,
    pub npm: Vec<String>,
    pub bun: Vec<String>,
    pub uv: Vec<UvTool>,
    pub downloads: Vec<Download>,
    pub mise: Vec<String>,
    pub harness: Harness,
    /// The definitions of the global library, by name.
    pub global_toolchains: Vec<(String, ToolchainDef)>,
    /// Variables for the container, by name.
    pub environment: Vec<(String, String)>,
    pub ephemeral: Vec<String>,
    pub ignore: Vec<String>,
    pub diff_viewer: Option<String>,
    /// Forces the way in which the workspace is filled.
    pub copy_strategy: Option<String>,
    pub networking: Networking,
    pub audio: bool,
}

pub open spec fn default_whitelist_hosts() -> Seq<Seq<char>> {
    seq![
        "opencode.ai"@,
        "mcp.exa.ai"@,
        "api.exa.ai"@,
        "api.parallel.ai"@,
        "search.parallel.ai"@,
        "task-mcp.parallel.ai"@,
        "api.tavily.com"@,
        "api.search.brave.com"@,
        "google.serper.dev"@,
        "api.anthropic.com"@,
    ]
}

/// The hosts that every session may reach without limit by default.
pub fn default_whitelist() -> (r: Vec<String>)
    ensures
        texts(r@) == default_whitelist_hosts(),
{
    let r = vec![
        "opencode.ai".to_owned(),
        "mcp.exa.ai".to_owned(),
        "api.exa.ai".to_owned(),
        "api.parallel.ai".to_owned(),
        "search.parallel.ai".to_owned(),
        "task-mcp.parallel.ai".to_owned(),
        "api.tavily.com".to_owned(),
        "api.search.brave.com".to_owned(),
        "google.serper.dev".to_owned(),
        "api.anthropic.com".to_owned(),
    ];
    assert(texts(r@) =~= default_whitelist_hosts());
    r
}

/// The packages that an image holds by default.
pub fn default_install() -> (r: Vec<String>)
    ensures
        texts(r@) == seq!["git"@, "gcc"@, "libc6-dev"@, "ncurses-term"@],
{
    let r = vec![
        "git".to_owned(),
        "gcc".to_owned(),
        "libc6-dev".to_owned(),
        "ncurses-term".to_owned(),
    ];
    assert(texts(r@) =~= seq!["git"@, "gcc"@, "libc6-dev"@, "ncurses-term"@]);
    r
}

pub fn default_base_image() -> (r: String)
    ensures
        r@ == "node:22-bookworm-slim"@,
{
    "node:22-bookworm-slim".to_owned()
}

pub fn default_workspace() -> (r: String)
    ensures
        r@ == "/workspace"@,
{
    "/workspace".to_owned()
}

/// The file that a new project starts from.
pub const STARTER_CONFIG: &'static str = r#"base_image = "node:22-bookworm-slim"
workspace = "/workspace"

# Install tools from the mise registry (supports name@version and backend:name):
# mise = ["neovim", "lua-language-server"]
# Define your own toolchains:
# [toolchain.example]
# install = ["curl"]
# env = { PATH = "/opt/example/bin:$PATH" }
# run = ["curl -fsSL https://example.com/install.sh | sh"]
# extra = ["example --version"]

[harness]
name = "opencode"
command = ["opencode", "/workspace"]

# Egress is capped by default (64 MiB per connection, 2 GiB per session,
# private networks blocked). Override any knob:
# [networking]
# payload_size = 65536
# quota = 2097152
"#;

pub fn starter_config() -> (r: String)
    ensures
        r@ == STARTER_CONFIG@,
{
    STARTER_CONFIG.to_owned()
}

pub open spec fn name_char(c: char) -> bool {
    ||| 'a' <= c <= 'z'
    ||| 'A' <= c <= 'Z'
    ||| '0' <= c <= '9'
    ||| c == '-'
    ||| c == '_'
    ||| c == '.'
}

pub open spec fn is_toolchain_name(name: Seq<char>) -> bool {
    name.len() > 0 && forall|i: int| 0 <= i < name.len() ==> name_char(#[trigger] name[i])
}

pub fn valid_toolchain_name(name: &str) -> (r: bool)
    ensures
        r == is_toolchain_name(name@),
{
    let chars = crate::text::chars_of(name);
    if chars.len() == 0 {
        return false;
    }
    let mut i: usize = 0;
    while i < chars.len()
        invariant
            chars@ == name@,
            i <= chars@.len(),
            forall|j: int| 0 <= j < i ==> name_char(#[trigger] name@[j]),
        decreases chars@.len() - i,
    {
        let c = chars[i];
        let fits = ('a' <= c && c <= 'z') || ('A' <= c && c <= 'Z') || ('0' <= c && c <= '9') || c
            == '-' || c == '_' || c == '.';
        if !fits {
            assert(!name_char(name@[i as int]));
            return false;
        }
        i += 1;
    }
    true
}

/// `names` are in strict order.
pub open spec fn names_ordered(names: Seq<Seq<char>>) -> bool {
    forall|i: int, j: int|
        0 <= i < j < names.len() ==> lex_less(text_rank(names[i]), text_rank(names[j]))
}

/// Names in strict order are determined by which names they are.
pub proof fn lemma_ordered_names_unique(a: Seq<Seq<char>>, b: Seq<Seq<char>>)
    requires
        names_ordered(a),
        names_ordered(b),
        forall|name: Seq<char>| #[trigger] a.contains(name) <==> b.contains(name),
    ensures
        a == b,
    decreases a.len(),
{
    if a.len() == 0 {
        if b.len() > 0 {
            assert(b.contains(b[0]));
            assert(a.contains(b[0]));
        }
        assert(a =~= b);
    } else {
        assert(a.contains(a.last()));
        assert(b.contains(a.last()));
        let i = choose|i: int| 0 <= i < b.len() && b[i] == a.last();
        assert(b.contains(b.last()));
        assert(a.contains(b.last()));
        let j = choose|j: int| 0 <= j < a.len() && a[j] == b.last();
        if i < b.len() - 1 {
            assert(lex_less(text_rank(b[i]), text_rank(b.last())));
            if j < a.len() - 1 {
                assert(lex_less(text_rank(a[j]), text_rank(a.last())));
            }
            lemma_lex_asymmetric(text_rank(b[i]), text_rank(b.last()));
        }
        assert(a.last() == b.last());
        let front_a = a.drop_last();
        let front_b = b.drop_last();
        assert forall|name: Seq<char>| #[trigger] front_a.contains(name) <==> front_b.contains(
            name,
        ) by {
            lemma_front_contains(a, name);
            lemma_front_contains(b, name);
            assert(a.contains(name) <==> b.contains(name));
        }
        lemma_ordered_names_unique(front_a, front_b);
        assert(a =~= front_a.push(a.last()));
        assert(b =~= front_b.push(b.last()));
    }
}

proof fn lemma_front_contains(names: Seq<Seq<char>>, name: Seq<char>)
    requires
        names_ordered(names),
        names.len() > 0,
    ensures
        names.drop_last().contains(name) <==> names.contains(name) && name != names.last(),
{
    let front = names.drop_last();
    if front.contains(name) {
        let i = choose|i: int| 0 <= i < front.len() && front[i] == name;
        assert(names[i] == name);
        assert(lex_less(text_rank(names[i]), text_rank(names.last())));
        lemma_lex_asymmetric(text_rank(name), text_rank(name));
    }
    if names.contains(name) && name != names.last() {
        let i = choose|i: int| 0 <= i < names.len() && names[i] == name;
        assert(front[i] == name);
    }
}

impl Config {
    /// The definition of a toolchain: the project's, or else the library's.
    pub open spec fn def_of(&self, name: Seq<char>) -> Option<ToolchainDef> {
        match entry_named(self.toolchain_defs@, name) {
            Some(def) => Some(def),
            None => entry_named(self.global_toolchains@, name),
        }
    }

    /// `names` are the defined toolchains, in order.
    pub open spec fn lists_defined(&self, names: Seq<Seq<char>>) -> bool {
        &&& names_ordered(names)
        &&& forall|name: Seq<char>| #[trigger] names.contains(name) <==> self.def_of(name) is Some
    }

    /// The defined toolchains, in order.
    pub open spec fn defined(&self) -> Seq<Seq<char>> {
        choose|names: Seq<Seq<char>>| self.lists_defined(names)
    }

    /// Which toolchains each toolchain includes.
    pub open spec fn includes(&self) -> IncludeGraph {
        Map::new(
            |name: Seq<char>| self.def_of(name) is Some,
            |name: Seq<char>| texts(self.def_of(name)->Some_0.includes@),
        )
    }

    /// `defs` are this configuration's definitions.
    pub open spec fn has_defs(&self, defs: Seq<Named<'_>>) -> bool {
        &&& is_merge(defs, self.toolchain_defs@, self.global_toolchains@)
        &&& names_of(defs) == self.defined()
        &&& include_graph(defs) == self.includes()
        &&& self.includes().dom().finite()
    }

    proof fn lemma_merge_is_defs(&self, defs: Seq<Named<'_>>)
        requires
            is_merge(defs, self.toolchain_defs@, self.global_toolchains@),
        ensures
            self.has_defs(defs),
    {
        let names = names_of(defs);
        assert forall|name: Seq<char>| #[trigger] names.contains(name) <==> self.def_of(
            name,
        ) is Some by {
            lemma_named_iff_listed(defs, name);
            assert(def_named(defs, name) == self.def_of(name));
        }
        assert forall|i: int, j: int| 0 <= i < j < names.len() implies lex_less(
            text_rank(names[i]),
            text_rank(names[j]),
        ) by {
            assert(lex_less(
                crate::order::Ranked::rank(&defs[i]),
                crate::order::Ranked::rank(&defs[j]),
            ));
        }
        assert(self.lists_defined(names));
        let chosen = self.defined();
        assert(self.lists_defined(chosen));
        lemma_ordered_names_unique(names, chosen);
        assert forall|name: Seq<char>| #[trigger] include_graph(defs).dom().contains(name)
            <==> self.includes().dom().contains(name) by {
            assert(names.contains(name) <==> self.def_of(name) is Some);
        }
        assert forall|name: Seq<char>| #[trigger]
            include_graph(defs).dom().contains(name) implies include_graph(defs)[name]
            == self.includes()[name] by {
            assert(def_named(defs, name) == self.def_of(name));
        }
        assert(include_graph(defs) =~= self.includes());
        lemma_graph_finite(defs);
    }

    /// The definitions of the configuration, in the order of their names.
    pub fn merged_toolchains(&self) -> (r: Vec<Named<'_>>)
        ensures
            self.has_defs(r@),
    {
        let merged = merge_defs(&self.toolchain_defs, &self.global_toolchains);
        proof {
            self.lemma_merge_is_defs(merged@);
        }
        merged
    }

    /// The selected toolchains and all that they include.
    pub fn expanded_selection(&self, defs: &[Named<'_>]) -> (r: Result<Vec<String>, SelectionError>)
        ensures
            (match r {
                Ok(names) => expansion(include_graph(defs@), texts(self.toolchains@)) == Ok::<
                    Seq<Seq<char>>,
                    SelectionProblem,
                >(texts(names@)),
                Err(error) => expansion(include_graph(defs@), texts(self.toolchains@)) == Err::<
                    Seq<Seq<char>>,
                    SelectionProblem,
                >(error@),
            }),
    {
        expand_selection(self.toolchains.as_slice(), defs)
    }

    /// The tag of the image: the configured one, or else one for the harness.
    pub open spec fn tag_text(&self) -> Seq<char> {
        match self.image_tag {
            Some(tag) => tag@,
            None => "localhost/pithos-"@ + self.harness.name_text() + ":latest"@,
        }
    }

    pub fn image_tag(&self) -> (r: String)
        ensures
            r@ == self.tag_text(),
    {
        match &self.image_tag {
            Some(tag) => tag.clone(),
            None => {
                let name = self.harness.name();
                cat3("localhost/pithos-", name.as_str(), ":latest")
            },
        }
    }

    /// Selects one toolchain in place of the configured ones, under a tag of
    /// its own.
    pub fn with_toolchain(&mut self, toolchain: Option<String>)
        ensures
            toolchain is None ==> *final(self) == *old(self),
            toolchain matches Some(name) ==> {
                &&& texts(final(self).toolchains@) == seq![name@]
                &&& final(self).image_tag is Some
                &&& final(self).tag_text() == old(self).tag_text() + "-"@ + name@
            },
            *final(self) == (Config {
                toolchains: final(self).toolchains,
                image_tag: final(self).image_tag,
                ..*old(self)
            }),
    {
        if let Some(name) = toolchain {
            let tag = self.image_tag();
            self.image_tag = Some(cat3(tag.as_str(), "-", name.as_str()));
            let selected = vec![name];
            assert(texts(selected@) =~= seq![name@]);
            self.toolchains = selected;
        }
    }
}

pub open spec fn unnamed_tool(tools: Seq<UvTool>) -> bool {
    exists|i: int| 0 <= i < tools.len() && (#[trigger] tools[i]).name@.len() == 0
}

pub open spec fn empty_download(downloads: Seq<Download>) -> bool {
    exists|i: int| 0 <= i < downloads.len() && (#[trigger] downloads[i]).url@.len() == 0
}

fn has_unnamed_tool(tools: &Vec<UvTool>) -> (r: bool)
    ensures
        r == unnamed_tool(tools@),
{
    let mut i: usize = 0;
    while i < tools.len()
        invariant
            i <= tools@.len(),
            forall|j: int| 0 <= j < i ==> (#[trigger] tools@[j]).name@.len() > 0,
        decreases tools@.len() - i,
    {
        if tools[i].name.as_str().is_empty() {
            assert(tools@[i as int].name@.len() == 0);
            return true;
        }
        i += 1;
    }
    false
}

fn has_empty_download(downloads: &Vec<Download>) -> (r: bool)
    ensures
        r == empty_download(downloads@),
{
    let mut i: usize = 0;
    while i < downloads.len()
        invariant
            i <= downloads@.len(),
            forall|j: int| 0 <= j < i ==> (#[trigger] downloads@[j]).url@.len() > 0,
        decreases downloads@.len() - i,
    {
        if downloads[i].url.as_str().is_empty() {
            assert(downloads@[i as int].url@.len() == 0);
            return true;
        }
        i += 1;
    }
    false
}

/// What is wrong with the first bad name.
pub open spec fn names_problem(names: Seq<Seq<char>>) -> Option<FailureView>
    decreases names.len(),
{
    if names.len() == 0 {
        None
    } else {
        match names_problem(names.drop_last()) {
            Some(problem) => Some(problem),
            None => if is_toolchain_name(names.last()) {
                None
            } else {
                Some(
                    plain(
                        "invalid toolchain name \""@ + names.last()
                            + "\": use letters, digits, '-', '_', '.'"@,
                    ),
                )
            },
        }
    }
}

/// What is wrong with one selected definition.
pub open spec fn def_problem(def: ToolchainDef, name: Seq<char>) -> Option<FailureView> {
    if unnamed_tool(def.uv@) {
        Some(plain("uv tool name cannot be empty (toolchain "@ + name + ")"@))
    } else if empty_download(def.downloads@) {
        Some(plain("download url cannot be empty (toolchain "@ + name + ")"@))
    } else {
        None
    }
}

impl Config {
    /// What is wrong with the first bad definition among `names`.
    pub open spec fn defs_problem(&self, names: Seq<Seq<char>>) -> Option<FailureView>
        decreases names.len(),
    {
        if names.len() == 0 {
            None
        } else {
            match self.defs_problem(names.drop_last()) {
                Some(problem) => Some(problem),
                None => def_problem(self.def_of(names.last())->Some_0, names.last()),
            }
        }
    }

    /// What is wrong with the selected toolchains.
    pub open spec fn selection_problem(&self) -> Option<FailureView> {
        match expansion(self.includes(), texts(self.toolchains@)) {
            Err(problem) => Some(plain(problem_text(problem, self.defined()))),
            Ok(names) => self.defs_problem(names),
        }
    }

    /// What is wrong with the harness, the paths and the definitions.
    pub open spec fn image_problem(&self) -> Option<FailureView> {
        if self.harness.command_texts().len() == 0 {
            Some(plain("harness.command cannot be empty"@))
        } else if self.harness.problem() is Some {
            self.harness.problem()
        } else if self.workspace@.len() == 0 || !has_prefix(self.workspace@, "/"@) {
            Some(plain("workspace must be an absolute container path"@))
        } else if self.image_tag is Some && self.image_tag->Some_0@.len() == 0 {
            Some(plain("image_tag cannot be empty"@))
        } else if names_problem(self.defined()) is Some {
            names_problem(self.defined())
        } else if self.selection_problem() is Some {
            self.selection_problem()
        } else if unnamed_tool(self.uv@) {
            Some(plain("uv tool name cannot be empty"@))
        } else if empty_download(self.downloads@) {
            Some(plain("download url cannot be empty"@))
        } else {
            None
        }
    }

    /// What is wrong with how sessions are reviewed and limited.
    pub open spec fn session_problem(&self) -> Option<FailureView> {
        if self.diff_viewer is Some && !contains_part(self.diff_viewer->Some_0@, "{dir}"@) {
            Some(plain("diff_viewer must contain the {dir} placeholder"@))
        } else if sets_variable(self.environment@, "diff_viewer"@) {
            Some(plain("diff_viewer must be a top-level key, not inside [environment]"@))
        } else if self.networking.payload_size == Some(0u64) {
            Some(plain("networking.payload_size must be greater than 0"@))
        } else if self.networking.quota == Some(0u64) {
            Some(plain("networking.quota must be greater than 0"@))
        } else {
            None
        }
    }

    /// The first thing that is wrong with the configuration.
    pub open spec fn problem(&self) -> Option<FailureView> {
        match self.image_problem() {
            Some(problem) => Some(problem),
            None => self.session_problem(),
        }
    }

    /// Accepts the configuration, or says what is wrong with it first.
    pub fn validate(&self) -> (r: Result<(), Failure>)
        ensures
            (match r {
                Ok(_) => self.problem() is None,
                Err(failure) => self.problem() == Some(failure@),
            }),
    {
        self.validate_image()?;
        self.validate_session()
    }

    fn validate_image(&self) -> (r: Result<(), Failure>)
        ensures
            (match r {
                Ok(_) => self.image_problem() is None,
                Err(failure) => self.image_problem() == Some(failure@),
            }),
    {
        if self.harness.command().len() == 0 {
            return Err(failed("harness.command cannot be empty"));
        }
        self.harness.validate()?;
        if self.workspace.as_str().is_empty() || !starts_with(self.workspace.as_str(), "/") {
            return Err(failed("workspace must be an absolute container path"));
        }
        if let Some(tag) = &self.image_tag {
            if tag.as_str().is_empty() {
                return Err(failed("image_tag cannot be empty"));
            }
        }
        let defs = self.merged_toolchains();
        check_names(defs.as_slice())?;
        self.check_selection(defs.as_slice())?;
        if has_unnamed_tool(&self.uv) {
            return Err(failed("uv tool name cannot be empty"));
        }
        if has_empty_download(&self.downloads) {
            return Err(failed("download url cannot be empty"));
        }
        Ok(())
    }

    fn check_selection(&self, defs: &[Named<'_>]) -> (r: Result<(), Failure>)
        requires
            self.has_defs(defs@),
        ensures
            (match r {
                Ok(_) => self.selection_problem() is None,
                Err(failure) => self.selection_problem() == Some(failure@),
            }),
    {
        let selected = match self.expanded_selection(defs) {
            Ok(names) => names,
            Err(error) => return Err(failure(error.message(defs))),
        };
        let ghost names = texts(selected@);
        proof {
            lemma_expansion_complete(self.includes(), texts(self.toolchains@));
        }
        let mut i: usize = 0;
        assert(names.take(0) =~= Seq::empty());
        while i < selected.len()
            invariant
                i <= selected@.len(),
                names == texts(selected@),
                self.has_defs(defs@),
                self.selection_problem() == self.defs_problem(names),
                forall|name: Seq<char>| #[trigger]
                    names.contains(name) ==> self.includes().dom().contains(name),
                self.defs_problem(names.take(i as int)) is None,
            decreases selected@.len() - i,
        {
            let name = selected[i].as_str();
            proof {
                assert(names[i as int] == name@);
                assert(names.contains(name@));
                assert(self.includes().dom().contains(name@));
                assert(def_named(defs@, name@) == self.def_of(name@));
                assert(names.take(i + 1).drop_last() =~= names.take(i as int));
                assert(names.take(i + 1).last() == name@);
                self.lemma_defs_problem_stays(names, i + 1);
            }
            if let Some(def) = find_def(defs, name) {
                if has_unnamed_tool(&def.uv) {
                    return Err(
                        failure(cat3("uv tool name cannot be empty (toolchain ", name, ")")),
                    );
                }
                if has_empty_download(&def.downloads) {
                    return Err(
                        failure(cat3("download url cannot be empty (toolchain ", name, ")")),
                    );
                }
            }
            i += 1;
        }
        assert(names.take(i as int) =~= names);
        Ok(())
    }

    proof fn lemma_defs_problem_stays(&self, names: Seq<Seq<char>>, n: int)
        requires
            0 <= n <= names.len(),
        ensures
            self.defs_problem(names.take(n)) is Some ==> self.defs_problem(names)
                == self.defs_problem(names.take(n)),
        decreases names.len() - n,
    {
        if n == names.len() {
            assert(names.take(n) =~= names);
        } else {
            self.lemma_defs_problem_stays(names, n + 1);
            assert(names.take(n + 1).drop_last() =~= names.take(n));
        }
    }

    fn validate_session(&self) -> (r: Result<(), Failure>)
        ensures
            (match r {
                Ok(_) => self.session_problem() is None,
                Err(failure) => self.session_problem() == Some(failure@),
            }),
    {
        if let Some(viewer) = &self.diff_viewer {
            if !contains(viewer.as_str(), "{dir}") {
                return Err(failed("diff_viewer must contain the {dir} placeholder"));
            }
        }
        if has_variable(&self.environment, "diff_viewer") {
            return Err(
                failed("diff_viewer must be a top-level key, not inside [environment]"),
            );
        }
        if let Some(size) = self.networking.payload_size {
            if size == 0 {
                return Err(failed("networking.payload_size must be greater than 0"));
            }
        }
        if let Some(quota) = self.networking.quota {
            if quota == 0 {
                return Err(failed("networking.quota must be greater than 0"));
            }
        }
        Ok(())
    }
}

/// One of `list` is called `name`.
pub open spec fn sets_variable(list: Seq<(String, String)>, name: Seq<char>) -> bool {
    exists|i: int| 0 <= i < list.len() && (#[trigger] list[i]).0@ == name
}

/// Whether one of `list` is called `name`.
pub fn has_variable(list: &Vec<(String, String)>, name: &str) -> (r: bool)
    ensures
        r == sets_variable(list@, name@),
{
    let mut i: usize = 0;
    while i < list.len()
        invariant
            i <= list@.len(),
            forall|j: int| 0 <= j < i ==> (#[trigger] list@[j]).0@ != name@,
        decreases list@.len() - i,
    {
        if same_text(list[i].0.as_str(), name) {
            assert(list@[i as int].0@ == name@);
            return true;
        }
        i += 1;
    }
    false
}

fn check_names(defs: &[Named<'_>]) -> (r: Result<(), Failure>)
    ensures
        (match r {
            Ok(_) => names_problem(names_of(defs@)) is None,
            Err(failure) => names_problem(names_of(defs@)) == Some(failure@),
        }),
{
    let ghost names = names_of(defs@);
    let mut i: usize = 0;
    assert(names.take(0) =~= Seq::empty());
    while i < defs.len()
        invariant
            i <= defs@.len(),
            names == names_of(defs@),
            names_problem(names.take(i as int)) is None,
        decreases defs@.len() - i,
    {
        let name = defs[i].name.as_str();
        proof {
            assert(names.take(i + 1).drop_last() =~= names.take(i as int));
            assert(names.take(i + 1).last() == name@);
            lemma_names_problem_stays(names, i + 1);
        }
        if !valid_toolchain_name(name) {
            return Err(
                failure(
                    cat3(
                        "invalid toolchain name \"",
                        name,
                        "\": use letters, digits, '-', '_', '.'",
                    ),
                ),
            );
        }
        i += 1;
    }
    assert(names.take(i as int) =~= names);
    Ok(())
}

proof fn lemma_names_problem_stays(names: Seq<Seq<char>>, n: int)
    requires
        0 <= n <= names.len(),
    ensures
        names_problem(names.take(n)) is Some ==> names_problem(names) == names_problem(
            names.take(n),
        ),
    decreases names.len() - n,
{
    if n == names.len() {
        assert(names.take(n) =~= names);
    } else {
        lemma_names_problem_stays(names, n + 1);
        assert(names.take(n + 1).drop_last() =~= names.take(n));
    }
}

/// Where a configuration is read from.
pub enum ConfigSource {
    /// A path given by the user.
    Explicit(String),
    /// The project's own file.
    Local,
    /// The user's global file.
    Global(String),
}

pub open spec fn global_config(dir: Seq<char>) -> Seq<char> {
    path_join(dir, "pithos/pithos.toml"@)
}

/// The path of the user's global file, below their configuration directory.
pub fn global_config_path(dir: &str) -> (r: String)
    ensures
        r@ == global_config(dir@),
{
    join_path(dir, "pithos/pithos.toml")
}

/// The path of the global toolchain library.
pub fn global_library_path(dir: &str) -> (r: String)
    ensures
        r@ == path_join(path_join(dir@, "pithos"@), "toolchains.toml"@),
{
    let base = join_path(dir, "pithos");
    join_path(base.as_str(), "toolchains.toml")
}

/// Chooses the configuration to read: an explicit path, else the local file,
/// else the global one.
pub fn resolve_config(
    explicit: Option<String>,
    local_exists: bool,
    config_dir: Option<String>,
    global_exists: bool,
) -> (r: Result<ConfigSource, String>)
    ensures
        (match explicit {
            Some(path) => r matches Ok(ConfigSource::Explicit(chosen)) && chosen@ == path@,
            None => if local_exists {
                r matches Ok(ConfigSource::Local)
            } else {
                match config_dir {
                    None => r matches Err(message) && message@
                        == "cannot determine config directory"@,
                    Some(dir) => if global_exists {
                        r matches Ok(ConfigSource::Global(chosen)) && chosen@ == global_config(dir@)
                    } else {
                        r matches Err(message) && message@
                            == "no config found: tried ./pithos.toml and "@ + global_config(dir@)
                    },
                }
            },
        }),
{
    if let Some(path) = explicit {
        return Ok(ConfigSource::Explicit(path));
    }
    if local_exists {
        return Ok(ConfigSource::Local);
    }
    match config_dir {
        None => Err("cannot determine config directory".to_owned()),
        Some(dir) => {
            let global = global_config_path(dir.as_str());
            if global_exists {
                Ok(ConfigSource::Global(global))
            } else {
                Err(cat2("no config found: tried ./pithos.toml and ", global.as_str()))
            }
        },
    }
}

impl ConfigSource {
    /// What a failure to find the file is reported as.
    pub fn context(&self) -> (r: String)
        ensures
            r@ == (match self {
                ConfigSource::Explicit(path) => "cannot find config "@ + path@,
                ConfigSource::Local => "cannot read local pithos.toml"@,
                ConfigSource::Global(_) => "cannot read global pithos.toml"@,
            }),
    {
        match self {
            ConfigSource::Explicit(path) => cat2("cannot find config ", path.as_str()),
            ConfigSource::Local => "cannot read local pithos.toml".to_owned(),
            ConfigSource::Global(_) => "cannot read global pithos.toml".to_owned(),
        }
    }
}

} // verus!
