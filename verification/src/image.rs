//! The container file of an image, and the digest that tells whether a built
//! image still matches its configuration.

use crate::config::Config;
use crate::platform::{decode_lossy, lossy_text, AGENT_HOME, AGENT_USER};
use crate::podman::{push_all, push_text};
use crate::text::{
    cat2, cat3, cat5, cat6, cat7, contains_part, decimal, decimal_text, hex, hex_text, join, joined,
    lemma_texts_push, lists, occurs_at, replace_char, replaced_char,
    same_text, text_option, text_pairs, texts, trim, trimmed, CharSet,
};
use crate::toolchain::{
    def_named, expansion, find_def, lemma_expansion_complete, problem_text, Download, Named,
    ToolchainDef, UvTool,
};
use std::hash::{DefaultHasher, Hash, Hasher};
use vstd::prelude::*;
use vstd::std_specs::hash::DefaultHasherAdditionalSpecFns;
use vstd::string::*;

verus! {

/// A text that a shell reads as one word.
pub open spec fn quoted(value: Seq<char>) -> Seq<char> {
    "'"@ + replaced_char(value, '\'', "'\\''"@) + "'"@
}

pub fn shell_quote(value: &str) -> (r: String)
    ensures
        r@ == quoted(value@),
{
    let inner = replace_char(value, '\'', "'\\''");
    cat3("'", inner.as_str(), "'")
}

pub open spec fn all_quoted(items: Seq<Seq<char>>) -> Seq<Seq<char>> {
    Seq::new(items.len(), |i: int| quoted(items[i]))
}

/// Several words, each quoted.
pub open spec fn quoted_words(items: Seq<Seq<char>>) -> Seq<char> {
    joined(all_quoted(items), " "@)
}

fn quote_words(items: &[String]) -> (r: String)
    ensures
        r@ == quoted_words(texts(items@)),
{
    let mut out: Vec<String> = Vec::new();
    let ghost all = all_quoted(texts(items@));
    let mut i: usize = 0;
    assert(texts(out@) =~= all.take(0));
    while i < items.len()
        invariant
            i <= items@.len(),
            all == all_quoted(texts(items@)),
            texts(out@) == all.take(i as int),
        decreases items@.len() - i,
    {
        broadcast use lemma_texts_push;

        out.push(shell_quote(items[i].as_str()));
        i += 1;
        assert(texts(out@) =~= all.take(i as int));
    }
    assert(all.take(i as int) =~= all);
    join(out.as_slice(), " ")
}

pub open spec fn option_text(line: Option<Seq<char>>) -> Seq<char> {
    match line {
        Some(text) => text,
        None => Seq::empty(),
    }
}

fn append_line(out: &mut String, line: Option<String>)
    ensures
        final(out)@ == old(out)@ + option_text(text_option(line)),
{
    match line {
        Some(text) => out.append(text.as_str()),
        None => {
            assert(out@ + Seq::<char>::empty() =~= out@);
        },
    }
}

/// The line that installs `items`, where there are any.
pub open spec fn install_text(
    prefix: Seq<char>,
    suffix: Seq<char>,
    items: Seq<Seq<char>>,
) -> Option<Seq<char>> {
    if items.len() == 0 {
        None
    } else {
        Some("RUN "@ + prefix + " "@ + quoted_words(items) + suffix + "\n"@)
    }
}

pub fn install_line(prefix: &str, suffix: &str, items: &[String]) -> (r: Option<String>)
    ensures
        (match r {
            Some(line) => install_text(prefix@, suffix@, texts(items@)) == Some(line@),
            None => install_text(prefix@, suffix@, texts(items@)) is None,
        }),
{
    if items.len() == 0 {
        return None;
    }
    let words = quote_words(items);
    Some(cat6("RUN ", prefix, " ", words.as_str(), suffix, "\n"))
}

/// The line that installs Debian packages.
pub open spec fn packages_text(items: Seq<Seq<char>>) -> Option<Seq<char>> {
    install_text(
        "apt-get update && apt-get install -y --no-install-recommends"@,
        " && rm -rf /var/lib/apt/lists/*"@,
        items,
    )
}

fn packages_line(items: &[String]) -> (r: Option<String>)
    ensures
        (match r {
            Some(line) => packages_text(texts(items@)) == Some(line@),
            None => packages_text(texts(items@)) is None,
        }),
{
    install_line(
        "apt-get update && apt-get install -y --no-install-recommends",
        " && rm -rf /var/lib/apt/lists/*",
        items,
    )
}

/// The line that installs tools through mise, and mise itself before them.
pub open spec fn mise_text(items: Seq<Seq<char>>) -> Option<Seq<char>> {
    if items.len() == 0 {
        None
    } else {
        Some(
            "RUN (command -v mise >/dev/null 2>&1 || (apt-get update && apt-get install -y --no-install-recommends curl ca-certificates && rm -rf /var/lib/apt/lists/* && curl -fsSL https://mise.run | MISE_INSTALL_PATH=/usr/local/bin/mise sh)) && mise use -g --yes "@
                + quoted_words(items) + "\n"@,
        )
    }
}

pub fn mise_install_lines(items: &[String]) -> (r: Option<String>)
    ensures
        (match r {
            Some(line) => mise_text(texts(items@)) == Some(line@),
            None => mise_text(texts(items@)) is None,
        }),
{
    if items.len() == 0 {
        return None;
    }
    let words = quote_words(items);
    Some(
        cat3(
            "RUN (command -v mise >/dev/null 2>&1 || (apt-get update && apt-get install -y --no-install-recommends curl ca-certificates && rm -rf /var/lib/apt/lists/* && curl -fsSL https://mise.run | MISE_INSTALL_PATH=/usr/local/bin/mise sh)) && mise use -g --yes ",
            words.as_str(),
            "\n",
        ),
    )
}

/// The lines that install one uv tool.
pub open spec fn uv_text(tool: UvTool) -> Seq<char> {
    let install = match tool.python {
        Some(python) => "RUN uv tool install "@ + quoted(tool.name@) + " --python "@ + quoted(
            python@,
        ) + "\n"@,
        None => "RUN uv tool install "@ + quoted(tool.name@) + "\n"@,
    };
    install + option_text(
        (match tool.run {
            Some(run) => Some("RUN "@ + run@ + "\n"@),
            None => None,
        }),
    )
}

pub fn uv_install_lines(tool: &UvTool) -> (r: String)
    ensures
        r@ == uv_text(*tool),
{
    let name = shell_quote(tool.name.as_str());
    let mut lines = match &tool.python {
        Some(python) => {
            let version = shell_quote(python.as_str());
            cat5("RUN uv tool install ", name.as_str(), " --python ", version.as_str(), "\n")
        },
        None => cat3("RUN uv tool install ", name.as_str(), "\n"),
    };
    let line = match &tool.run {
        Some(run) => Some(cat3("RUN ", run.as_str(), "\n")),
        None => None,
    };
    append_line(&mut lines, line);
    lines
}

pub open spec fn uv_tools_text(tools: Seq<UvTool>) -> Seq<char>
    decreases tools.len(),
{
    if tools.len() == 0 {
        Seq::empty()
    } else {
        uv_tools_text(tools.drop_last()) + uv_text(tools.last())
    }
}

fn append_uv_tools(out: &mut String, tools: &Vec<UvTool>)
    ensures
        final(out)@ == old(out)@ + uv_tools_text(tools@),
{
    let ghost start = out@;
    let mut i: usize = 0;
    assert(tools@.take(0) =~= Seq::empty());
    assert(start + Seq::<char>::empty() =~= start);
    while i < tools.len()
        invariant
            i <= tools@.len(),
            out@ == start + uv_tools_text(tools@.take(i as int)),
        decreases tools@.len() - i,
    {
        let lines = uv_install_lines(&tools[i]);
        let ghost so_far = uv_tools_text(tools@.take(i as int));
        out.append(lines.as_str());
        proof {
            assert(tools@.take(i + 1).drop_last() =~= tools@.take(i as int));
            assert((start + so_far) + lines@ =~= start + (so_far + lines@));
        }
        i += 1;
    }
    assert(tools@.take(i as int) =~= tools@);
}

/// Variables for one command: `KEY='value'` each.
pub open spec fn assignments(env: Seq<(Seq<char>, Seq<char>)>, quote: bool) -> Seq<Seq<char>> {
    Seq::new(
        env.len(),
        |i: int|
            env[i].0 + "="@ + (if quote {
                quoted(env[i].1)
            } else {
                env[i].1
            }),
    )
}

fn assign_all(env: &Vec<(String, String)>, quote: bool) -> (r: String)
    ensures
        r@ == joined(assignments(text_pairs(env@), quote), " "@),
{
    let mut out: Vec<String> = Vec::new();
    let ghost all = assignments(text_pairs(env@), quote);
    let mut i: usize = 0;
    assert(texts(out@) =~= all.take(0));
    while i < env.len()
        invariant
            i <= env@.len(),
            all == assignments(text_pairs(env@), quote),
            texts(out@) == all.take(i as int),
        decreases env@.len() - i,
    {
        broadcast use lemma_texts_push;

        let value = if quote {
            shell_quote(env[i].1.as_str())
        } else {
            env[i].1.clone()
        };
        out.push(cat3(env[i].0.as_str(), "=", value.as_str()));
        i += 1;
        assert(texts(out@) =~= all.take(i as int));
    }
    assert(all.take(i as int) =~= all);
    join(out.as_slice(), " ")
}

impl Download {
    /// The shell command that runs the installer script.
    pub open spec fn command_text(&self) -> Seq<char> {
        let env = joined(assignments(text_pairs(self.env@), true), " "@);
        "apt-get update && apt-get install -y --no-install-recommends curl ca-certificates unzip && rm -rf /var/lib/apt/lists/* && curl -fsSL "@
            + quoted(self.url@) + " | "@ + (if env.len() == 0 {
            Seq::empty()
        } else {
            env + " "@
        }) + "sh"@
    }

    pub fn command(&self) -> (r: String)
        ensures
            r@ == self.command_text(),
    {
        let env = assign_all(&self.env, true);
        let prefix = if env.as_str().is_empty() {
            String::new()
        } else {
            cat2(env.as_str(), " ")
        };
        let url = shell_quote(self.url.as_str());
        cat5(
            "apt-get update && apt-get install -y --no-install-recommends curl ca-certificates unzip && rm -rf /var/lib/apt/lists/* && curl -fsSL ",
            url.as_str(),
            " | ",
            prefix.as_str(),
            "sh",
        )
    }
}

pub open spec fn downloads_text(downloads: Seq<Download>) -> Seq<char>
    decreases downloads.len(),
{
    if downloads.len() == 0 {
        Seq::empty()
    } else {
        downloads_text(downloads.drop_last()) + ("RUN "@ + downloads.last().command_text() + "\n"@)
    }
}

fn append_downloads(out: &mut String, downloads: &Vec<Download>)
    ensures
        final(out)@ == old(out)@ + downloads_text(downloads@),
{
    let ghost start = out@;
    let mut i: usize = 0;
    assert(downloads@.take(0) =~= Seq::empty());
    assert(start + Seq::<char>::empty() =~= start);
    while i < downloads.len()
        invariant
            i <= downloads@.len(),
            out@ == start + downloads_text(downloads@.take(i as int)),
        decreases downloads@.len() - i,
    {
        let command = downloads[i].command();
        let line = cat3("RUN ", command.as_str(), "\n");
        let ghost so_far = downloads_text(downloads@.take(i as int));
        out.append(line.as_str());
        proof {
            assert(downloads@.take(i + 1).drop_last() =~= downloads@.take(i as int));
            assert((start + so_far) + line@ =~= start + (so_far + line@));
        }
        i += 1;
    }
    assert(downloads@.take(i as int) =~= downloads@);
}

/// A line for each of `commands`.
pub open spec fn runs_text(commands: Seq<Seq<char>>) -> Seq<char>
    decreases commands.len(),
{
    if commands.len() == 0 {
        Seq::empty()
    } else {
        runs_text(commands.drop_last()) + ("RUN "@ + commands.last() + "\n"@)
    }
}

fn append_runs(out: &mut String, commands: &Vec<String>)
    ensures
        final(out)@ == old(out)@ + runs_text(texts(commands@)),
{
    let ghost start = out@;
    let ghost all = texts(commands@);
    let mut i: usize = 0;
    assert(all.take(0) =~= Seq::empty());
    assert(start + Seq::<char>::empty() =~= start);
    while i < commands.len()
        invariant
            i <= commands@.len(),
            all == texts(commands@),
            out@ == start + runs_text(all.take(i as int)),
        decreases commands@.len() - i,
    {
        let line = cat3("RUN ", commands[i].as_str(), "\n");
        let ghost so_far = runs_text(all.take(i as int));
        out.append(line.as_str());
        proof {
            assert(all.take(i + 1).drop_last() =~= all.take(i as int));
            assert(all.take(i + 1).last() == commands@[i as int]@);
            assert((start + so_far) + line@ =~= start + (so_far + line@));
        }
        i += 1;
    }
    assert(all.take(i as int) =~= all);
}

impl ToolchainDef {
    /// The part of the container file that installs this toolchain.
    pub open spec fn block_text(&self, selected: bool) -> Seq<char> {
        let env: Seq<char> = if self.env@.len() == 0 {
            Seq::empty()
        } else {
            "ENV "@ + joined(assignments(text_pairs(self.env@), false), " "@) + "\n"@
        };
        let extra: Seq<char> = if selected {
            runs_text(texts(self.extra@))
        } else {
            Seq::empty()
        };
        env + option_text(packages_text(texts(self.install@))) + runs_text(texts(self.run@))
            + option_text(mise_text(texts(self.mise@))) + extra + option_text(
            install_text("cargo install --root /usr/local"@, ""@, texts(self.cargo@)),
        ) + option_text(install_text("npm install --global"@, ""@, texts(self.npm@)))
            + option_text(
            install_text(
                "npm install --global bun && bun install --global"@,
                ""@,
                texts(self.bun@),
            ),
        ) + uv_tools_text(self.uv@) + downloads_text(self.downloads@)
    }

    pub fn containerfile_block(&self, selected: bool) -> (r: String)
        ensures
            r@ == self.block_text(selected),
    {
        let mut block = if self.env.len() == 0 {
            String::new()
        } else {
            let pairs = assign_all(&self.env, false);
            cat3("ENV ", pairs.as_str(), "\n")
        };
        append_line(&mut block, packages_line(self.install.as_slice()));
        append_runs(&mut block, &self.run);
        append_line(&mut block, mise_install_lines(self.mise.as_slice()));
        if selected {
            append_runs(&mut block, &self.extra);
        } else {
            assert(block@ + Seq::<char>::empty() =~= block@);
        }
        append_line(
            &mut block,
            install_line("cargo install --root /usr/local", "", self.cargo.as_slice()),
        );
        append_line(&mut block, install_line("npm install --global", "", self.npm.as_slice()));
        append_line(
            &mut block,
            install_line(
                "npm install --global bun && bun install --global",
                "",
                self.bun.as_slice(),
            ),
        );
        append_uv_tools(&mut block, &self.uv);
        append_downloads(&mut block, &self.downloads);
        block
    }
}

/// The lines that make the agent user.
pub open spec fn preamble_text(uid: nat, gid: nat) -> Seq<char> {
    "RUN mkdir -p "@ + quoted(AGENT_HOME@) + " && (useradd -o -m -d "@ + quoted(AGENT_HOME@) + " -u "@
        + decimal_text(uid) + " -g "@ + decimal_text(gid) + " -s /bin/sh "@ + quoted(AGENT_USER@)
        + " || true)\n"@ + "ENV HOME="@ + AGENT_HOME@ + "\n"@
}

pub fn agent_preamble(uid: u32, gid: u32) -> (r: String)
    ensures
        r@ == preamble_text(uid as nat, gid as nat),
{
    let home = shell_quote(AGENT_HOME);
    let user = shell_quote(AGENT_USER);
    let uid_text = decimal(uid as u64);
    let gid_text = decimal(gid as u64);
    let mut out = "RUN mkdir -p ".to_owned();
    out.append(home.as_str());
    out.append(" && (useradd -o -m -d ");
    out.append(home.as_str());
    out.append(" -u ");
    out.append(uid_text.as_str());
    out.append(" -g ");
    out.append(gid_text.as_str());
    out.append(" -s /bin/sh ");
    out.append(user.as_str());
    out.append(" || true)\n");
    out.append("ENV HOME=");
    out.append(AGENT_HOME);
    out.append("\n");
    out
}

/// The line that gives the agent its home.
pub open spec fn epilogue_text(uid: nat, gid: nat) -> Seq<char> {
    "RUN chown -R "@ + decimal_text(uid) + ":"@ + decimal_text(gid) + " "@ + quoted(AGENT_HOME@)
        + "\n"@
}

pub fn agent_epilogue(uid: u32, gid: u32) -> (r: String)
    ensures
        r@ == epilogue_text(uid as nat, gid as nat),
{
    let home = shell_quote(AGENT_HOME);
    let uid_text = decimal(uid as u64);
    let gid_text = decimal(gid as u64);
    cat7(
        "RUN chown -R ",
        uid_text.as_str(),
        ":",
        gid_text.as_str(),
        " ",
        home.as_str(),
        "\n",
    )
}

/// The client libraries through which a session reaches the sound server.
pub open spec fn sound_packages() -> Seq<Seq<char>> {
    seq!["libasound2"@, "libpulse0"@]
}

/// The line that installs them, where a session is to have sound.
pub open spec fn sound_text(audio: bool) -> Seq<char> {
    if audio {
        option_text(packages_text(sound_packages()))
    } else {
        Seq::empty()
    }
}

fn sound_line(audio: bool) -> (r: Option<String>)
    ensures
        option_text(text_option(r)) == sound_text(audio),
{
    if audio {
        let packages = vec!["libasound2".to_owned(), "libpulse0".to_owned()];
        assert(texts(packages@) =~= sound_packages());
        packages_line(packages.as_slice())
    } else {
        None
    }
}

/// The line that takes the directories of the system their write bits.
pub open spec fn sealing_text() -> Seq<char> {
    "RUN find /usr /etc -xdev -type d -exec chmod a-w {} +\n"@
}

pub open spec fn json_word(item: Seq<char>) -> Seq<char> {
    "\""@ + replaced_char(replaced_char(item, '\\', "\\\\"@), '"', "\\\""@) + "\""@
}

pub open spec fn json_words(command: Seq<Seq<char>>) -> Seq<Seq<char>> {
    Seq::new(command.len(), |i: int| json_word(command[i]))
}

/// A command as the list of words that a container file takes.
pub open spec fn json_command_text(command: Seq<Seq<char>>) -> Seq<char> {
    "["@ + joined(json_words(command), ", "@) + "]"@
}

pub fn json_command(command: &[String]) -> (r: String)
    ensures
        r@ == json_command_text(texts(command@)),
{
    let mut out: Vec<String> = Vec::new();
    let ghost all = json_words(texts(command@));
    let mut i: usize = 0;
    assert(texts(out@) =~= all.take(0));
    while i < command.len()
        invariant
            i <= command@.len(),
            all == json_words(texts(command@)),
            texts(out@) == all.take(i as int),
        decreases command@.len() - i,
    {
        broadcast use lemma_texts_push;

        let slashes = replace_char(command[i].as_str(), '\\', "\\\\");
        let quotes = replace_char(slashes.as_str(), '"', "\\\"");
        out.push(cat3("\"", quotes.as_str(), "\""));
        i += 1;
        assert(texts(out@) =~= all.take(i as int));
    }
    assert(all.take(i as int) =~= all);
    let list = join(out.as_slice(), ", ");
    cat3("[", list.as_str(), "]")
}

/// Those of `tools` that nothing else installs.
pub open spec fn not_covered(tools: Seq<Seq<char>>, covered: spec_fn(Seq<char>) -> bool) -> Seq<
    Seq<char>,
>
    decreases tools.len(),
{
    if tools.len() == 0 {
        Seq::empty()
    } else {
        let before = not_covered(tools.drop_last(), covered);
        if covered(tools.last()) {
            before
        } else {
            before.push(tools.last())
        }
    }
}

impl Config {
    /// The tools that the package lists need.
    pub open spec fn providers(&self) -> Seq<Seq<char>> {
        let none = Seq::<Seq<char>>::empty();
        (if self.cargo@.len() > 0 {
            seq!["rust"@]
        } else {
            none
        }) + (if self.npm@.len() > 0 {
            seq!["node"@]
        } else {
            none
        }) + (if self.bun@.len() > 0 {
            seq!["bun"@]
        } else {
            none
        }) + (if self.uv@.len() > 0 {
            seq!["python"@, "uv"@]
        } else {
            none
        })
    }

    /// The tools that mise is asked for by name: in the configuration, or in
    /// one of the `wanted` definitions.
    pub open spec fn covered(&self, wanted: Seq<Seq<char>>) -> spec_fn(Seq<char>) -> bool {
        |tool: Seq<char>|
            texts(self.mise@).contains(tool) || exists|i: int|
                0 <= i < wanted.len() && texts(
                    self.def_of(#[trigger] wanted[i])->Some_0.mise@,
                ).contains(tool)
    }

    /// The tools that mise installs for the configuration as a whole.
    pub open spec fn mise_tools(&self, wanted: Seq<Seq<char>>) -> Seq<Seq<char>> {
        texts(self.mise@) + not_covered(self.providers(), self.covered(wanted))
    }

    pub open spec fn some_def_uses_mise(&self, wanted: Seq<Seq<char>>) -> bool {
        exists|i: int|
            0 <= i < wanted.len() && self.def_of(#[trigger] wanted[i])->Some_0.mise@.len() > 0
    }

    pub open spec fn some_def_uses_uv(&self, wanted: Seq<Seq<char>>) -> bool {
        exists|i: int|
            0 <= i < wanted.len() && self.def_of(#[trigger] wanted[i])->Some_0.uv@.len() > 0
    }

    /// The blocks of the wanted toolchains, one after the other.
    pub open spec fn blocks_text(&self, wanted: Seq<Seq<char>>) -> Seq<char>
        decreases wanted.len(),
    {
        if wanted.len() == 0 {
            Seq::empty()
        } else {
            self.blocks_text(wanted.drop_last()) + self.def_of(
                wanted.last(),
            )->Some_0.block_text(true)
        }
    }

    /// What every image starts with: its base, the agent, the harness and the
    /// configured packages.
    pub open spec fn base_text(&self, uid: nat, gid: nat) -> Seq<char> {
        "FROM "@ + self.base_image@ + "\nWORKDIR "@ + self.workspace@ + "\n"@ + preamble_text(
            uid,
            gid,
        ) + self.harness.install_text() + option_text(packages_text(texts(self.install@)))
    }

    /// The `wanted` toolchains, and the tools of the configuration itself.
    pub open spec fn tools_text(&self, wanted: Seq<Seq<char>>) -> Seq<char> {
        let mise_env: Seq<char> = if self.mise_tools(wanted).len() > 0 || self.some_def_uses_mise(
            wanted,
        ) {
            "ENV MISE_DATA_DIR=/usr/local/share/mise PATH=/usr/local/share/mise/shims:$PATH\n"@
        } else {
            Seq::empty()
        };
        let uv_env: Seq<char> = if self.uv@.len() > 0 || self.some_def_uses_uv(wanted) {
            "ENV UV_TOOL_BIN_DIR=/usr/local/bin\n"@
        } else {
            Seq::empty()
        };
        mise_env + uv_env + self.blocks_text(wanted) + option_text(
            mise_text(self.mise_tools(wanted)),
        ) + option_text(
            install_text("cargo install --root /usr/local"@, ""@, texts(self.cargo@)),
        ) + option_text(install_text("npm install --global"@, ""@, texts(self.npm@)))
            + option_text(install_text("bun install --global"@, ""@, texts(self.bun@)))
            + uv_tools_text(self.uv@) + downloads_text(self.downloads@)
    }

    /// The container file for the `wanted` toolchains.
    pub open spec fn image_text(&self, wanted: Seq<Seq<char>>, uid: nat, gid: nat) -> Seq<char> {
        self.base_text(uid, gid) + sound_text(self.audio) + self.tools_text(wanted)
            + epilogue_text(uid, gid) + "RUN chmod -R a+rwX /tmp\n"@ + sealing_text() + "CMD "@
            + json_command_text(self.harness.command_texts()) + "\n"@
    }

    /// The container file, or why the selection has none.
    pub open spec fn containerfile_text(&self, uid: nat, gid: nat) -> Result<Seq<char>, Seq<char>> {
        match expansion(self.includes(), texts(self.toolchains@)) {
            Ok(wanted) => Ok(self.image_text(wanted, uid, gid)),
            Err(problem) => Err(problem_text(problem, self.defined())),
        }
    }

    /// `wanted` names defined toolchains.
    spec fn all_defined(&self, wanted: Seq<Seq<char>>) -> bool {
        forall|i: int| 0 <= i < wanted.len() ==> self.def_of(#[trigger] wanted[i]) is Some
    }

    fn def_at<'a>(&self, defs: &[Named<'a>], wanted: &Vec<String>, i: usize) -> (r:
        &'a ToolchainDef)
        requires
            self.has_defs(defs@),
            self.all_defined(texts(wanted@)),
            i < wanted@.len(),
        ensures
            self.def_of(texts(wanted@)[i as int]) == Some(*r),
    {
        let name = wanted[i].as_str();
        assert(texts(wanted@)[i as int] == name@);
        assert(def_named(defs@, name@) == self.def_of(name@));
        match find_def(defs, name) {
            Some(def) => def,
            None => {
                assert(false);
                defs[0].def
            },
        }
    }

    fn is_covered(&self, defs: &[Named<'_>], wanted: &Vec<String>, tool: &str) -> (r: bool)
        requires
            self.has_defs(defs@),
            self.all_defined(texts(wanted@)),
        ensures
            r == (self.covered(texts(wanted@)))(tool@),
    {
        if lists(self.mise.as_slice(), tool) {
            return true;
        }
        let ghost names = texts(wanted@);
        let mut i: usize = 0;
        while i < wanted.len()
            invariant
                i <= wanted@.len(),
                names == texts(wanted@),
                self.has_defs(defs@),
                self.all_defined(names),
                forall|j: int|
                    0 <= j < i ==> !texts(
                        self.def_of(#[trigger] names[j])->Some_0.mise@,
                    ).contains(tool@),
            decreases wanted@.len() - i,
        {
            let def = self.def_at(defs, wanted, i);
            if lists(def.mise.as_slice(), tool) {
                assert(texts(self.def_of(names[i as int])->Some_0.mise@).contains(tool@));
                return true;
            }
            i += 1;
        }
        false
    }

    fn push_provider(
        &self,
        out: &mut Vec<String>,
        defs: &[Named<'_>],
        wanted: &Vec<String>,
        tool: &str,
        Ghost(before): Ghost<Seq<Seq<char>>>,
    )
        requires
            self.has_defs(defs@),
            self.all_defined(texts(wanted@)),
            texts(old(out)@) == texts(self.mise@) + not_covered(
                before,
                self.covered(texts(wanted@)),
            ),
        ensures
            texts(final(out)@) == texts(self.mise@) + not_covered(
                before.push(tool@),
                self.covered(texts(wanted@)),
            ),
    {
        assert(before.push(tool@).drop_last() =~= before);
        if !self.is_covered(defs, wanted, tool) {
            let ghost kept = not_covered(before, self.covered(texts(wanted@)));
            push_text(out, tool);
            assert((texts(self.mise@) + kept).push(tool@) =~= texts(self.mise@) + kept.push(tool@));
        }
    }

    fn tools_for_mise(&self, defs: &[Named<'_>], wanted: &Vec<String>) -> (r: Vec<String>)
        requires
            self.has_defs(defs@),
            self.all_defined(texts(wanted@)),
        ensures
            texts(r@) == self.mise_tools(texts(wanted@)),
    {
        let mut out: Vec<String> = Vec::new();
        assert(texts(out@) =~= Seq::empty());
        push_all(&mut out, self.mise.as_slice());
        let ghost mut before = Seq::<Seq<char>>::empty();
        assert(texts(out@) =~= texts(self.mise@) + not_covered(
            before,
            self.covered(texts(wanted@)),
        ));
        if self.cargo.len() > 0 {
            self.push_provider(&mut out, defs, wanted, "rust", Ghost(before));
            proof {
                before = before.push("rust"@);
            }
        }
        if self.npm.len() > 0 {
            self.push_provider(&mut out, defs, wanted, "node", Ghost(before));
            proof {
                before = before.push("node"@);
            }
        }
        if self.bun.len() > 0 {
            self.push_provider(&mut out, defs, wanted, "bun", Ghost(before));
            proof {
                before = before.push("bun"@);
            }
        }
        if self.uv.len() > 0 {
            self.push_provider(&mut out, defs, wanted, "python", Ghost(before));
            proof {
                before = before.push("python"@);
            }
            self.push_provider(&mut out, defs, wanted, "uv", Ghost(before));
            proof {
                before = before.push("uv"@);
            }
        }
        assert(before =~= self.providers());
        out
    }

    fn uses_mise(&self, defs: &[Named<'_>], wanted: &Vec<String>) -> (r: bool)
        requires
            self.has_defs(defs@),
            self.all_defined(texts(wanted@)),
        ensures
            r == self.some_def_uses_mise(texts(wanted@)),
    {
        let ghost names = texts(wanted@);
        let mut i: usize = 0;
        while i < wanted.len()
            invariant
                i <= wanted@.len(),
                names == texts(wanted@),
                self.has_defs(defs@),
                self.all_defined(names),
                forall|j: int|
                    0 <= j < i ==> self.def_of(#[trigger] names[j])->Some_0.mise@.len() == 0,
            decreases wanted@.len() - i,
        {
            let def = self.def_at(defs, wanted, i);
            if def.mise.len() > 0 {
                assert(self.def_of(names[i as int])->Some_0.mise@.len() > 0);
                return true;
            }
            i += 1;
        }
        false
    }

    fn uses_uv(&self, defs: &[Named<'_>], wanted: &Vec<String>) -> (r: bool)
        requires
            self.has_defs(defs@),
            self.all_defined(texts(wanted@)),
        ensures
            r == self.some_def_uses_uv(texts(wanted@)),
    {
        let ghost names = texts(wanted@);
        let mut i: usize = 0;
        while i < wanted.len()
            invariant
                i <= wanted@.len(),
                names == texts(wanted@),
                self.has_defs(defs@),
                self.all_defined(names),
                forall|j: int|
                    0 <= j < i ==> self.def_of(#[trigger] names[j])->Some_0.uv@.len() == 0,
            decreases wanted@.len() - i,
        {
            let def = self.def_at(defs, wanted, i);
            if def.uv.len() > 0 {
                assert(self.def_of(names[i as int])->Some_0.uv@.len() > 0);
                return true;
            }
            i += 1;
        }
        false
    }

    fn append_blocks(&self, out: &mut String, defs: &[Named<'_>], wanted: &Vec<String>)
        requires
            self.has_defs(defs@),
            self.all_defined(texts(wanted@)),
        ensures
            final(out)@ == old(out)@ + self.blocks_text(texts(wanted@)),
    {
        let ghost names = texts(wanted@);
        let ghost start = out@;
        let mut i: usize = 0;
        assert(names.take(0) =~= Seq::empty());
        assert(start + Seq::<char>::empty() =~= start);
        while i < wanted.len()
            invariant
                i <= wanted@.len(),
                names == texts(wanted@),
                self.has_defs(defs@),
                self.all_defined(names),
                out@ == start + self.blocks_text(names.take(i as int)),
            decreases wanted@.len() - i,
        {
            // An included toolchain counts as selected, like the one that
            // includes it.
            let block = self.def_at(defs, wanted, i).containerfile_block(true);
            let ghost so_far = self.blocks_text(names.take(i as int));
            out.append(block.as_str());
            proof {
                assert(names.take(i + 1).drop_last() =~= names.take(i as int));
                assert(names.take(i + 1).last() == names[i as int]);
                assert((start + so_far) + block@ =~= start + (so_far + block@));
            }
            i += 1;
        }
        assert(names.take(i as int) =~= names);
    }

    fn tool_lines(&self, defs: &[Named<'_>], wanted: &Vec<String>) -> (r: String)
        requires
            self.has_defs(defs@),
            self.all_defined(texts(wanted@)),
        ensures
            r@ == self.tools_text(texts(wanted@)),
    {
        let mise_tools = self.tools_for_mise(defs, wanted);
        let mut out = if mise_tools.len() > 0 || self.uses_mise(defs, wanted) {
            "ENV MISE_DATA_DIR=/usr/local/share/mise PATH=/usr/local/share/mise/shims:$PATH\n".to_owned()
        } else {
            String::new()
        };
        if self.uv.len() > 0 || self.uses_uv(defs, wanted) {
            out.append("ENV UV_TOOL_BIN_DIR=/usr/local/bin\n");
        } else {
            assert(out@ + Seq::<char>::empty() =~= out@);
        }
        self.append_blocks(&mut out, defs, wanted);
        append_line(&mut out, mise_install_lines(mise_tools.as_slice()));
        append_line(
            &mut out,
            install_line("cargo install --root /usr/local", "", self.cargo.as_slice()),
        );
        append_line(&mut out, install_line("npm install --global", "", self.npm.as_slice()));
        append_line(&mut out, install_line("bun install --global", "", self.bun.as_slice()));
        append_uv_tools(&mut out, &self.uv);
        append_downloads(&mut out, &self.downloads);
        out
    }

    /// The container file of the image, for a host user with these ids.
    pub fn containerfile(&self, uid: u32, gid: u32) -> (r: Result<String, String>)
        ensures
            (match r {
                Ok(text) => self.containerfile_text(uid as nat, gid as nat) == Ok::<
                    Seq<char>,
                    Seq<char>,
                >(text@),
                Err(message) => self.containerfile_text(uid as nat, gid as nat) == Err::<
                    Seq<char>,
                    Seq<char>,
                >(message@),
            }),
    {
        let defs = self.merged_toolchains();
        let wanted = match self.expanded_selection(defs.as_slice()) {
            Ok(names) => names,
            Err(error) => return Err(error.message(defs.as_slice())),
        };
        let ghost names = texts(wanted@);
        proof {
            lemma_expansion_complete(self.includes(), texts(self.toolchains@));
            assert forall|i: int| 0 <= i < names.len() implies self.def_of(
                #[trigger] names[i],
            ) is Some by {
                assert(names.contains(names[i]));
                assert(self.includes().dom().contains(names[i]));
            }
        }
        let mut output = cat5(
            "FROM ",
            self.base_image.as_str(),
            "\nWORKDIR ",
            self.workspace.as_str(),
            "\n",
        );
        output.append(agent_preamble(uid, gid).as_str());
        output.append(self.harness.install().as_str());
        append_line(&mut output, packages_line(self.install.as_slice()));
        append_line(&mut output, sound_line(self.audio));
        output.append(self.tool_lines(defs.as_slice(), &wanted).as_str());
        output.append(agent_epilogue(uid, gid).as_str());
        output.append("RUN chmod -R a+rwX /tmp\n");
        output.append("RUN find /usr /etc -xdev -type d -exec chmod a-w {} +\n");
        output.append("CMD ");
        output.append(json_command(self.harness.command().as_slice()).as_str());
        output.append("\n");
        Ok(output)
    }
}

/// The image of a session with sound installs the libraries for it, and every
/// image takes the directories of the system their write bits.
pub proof fn lemma_image_steps(config: &Config, wanted: Seq<Seq<char>>, uid: nat, gid: nat)
    ensures
        config.audio ==> packages_text(sound_packages()) is Some && contains_part(
            config.image_text(wanted, uid, gid),
            packages_text(sound_packages())->Some_0,
        ),
        contains_part(config.image_text(wanted, uid, gid), sealing_text()),
{
    let base = config.base_text(uid, gid);
    let sound = sound_text(config.audio);
    let tools = config.tools_text(wanted);
    let own = epilogue_text(uid, gid);
    let temporary = "RUN chmod -R a+rwX /tmp\n"@;
    let words = json_command_text(config.harness.command_texts());
    let to_sound = base + sound;
    let to_tools = to_sound + tools;
    let to_own = to_tools + own;
    let to_temporary = to_own + temporary;
    let to_seal = to_temporary + sealing_text();
    lemma_ends_in(to_temporary, sealing_text());
    lemma_appended_keeps(to_seal, "CMD "@, sealing_text());
    lemma_appended_keeps(to_seal + "CMD "@, words, sealing_text());
    lemma_appended_keeps(to_seal + "CMD "@ + words, "\n"@, sealing_text());
    if config.audio {
        lemma_ends_in(base, sound);
        lemma_appended_keeps(to_sound, tools, sound);
        lemma_appended_keeps(to_tools, own, sound);
        lemma_appended_keeps(to_own, temporary, sound);
        lemma_appended_keeps(to_temporary, sealing_text(), sound);
        lemma_appended_keeps(to_seal, "CMD "@, sound);
        lemma_appended_keeps(to_seal + "CMD "@, words, sound);
        lemma_appended_keeps(to_seal + "CMD "@ + words, "\n"@, sound);
    }
}

proof fn lemma_ends_in(before: Seq<char>, part: Seq<char>)
    ensures
        contains_part(before + part, part),
{
    let at = before.len() as int;
    assert((before + part).subrange(at, at + part.len()) =~= part);
    assert(occurs_at(before + part, part, at));
}

proof fn lemma_appended_keeps(text: Seq<char>, more: Seq<char>, part: Seq<char>)
    requires
        contains_part(text, part),
    ensures
        contains_part(text + more, part),
{
    let at = choose|at: int| occurs_at(text, part, at);
    assert((text + more).subrange(at, at + part.len()) =~= text.subrange(at, at + part.len()));
    assert(occurs_at(text + more, part, at));
}

/// What a hasher holds once a text has been hashed into it.
pub uninterp spec fn hashed_text(state: Seq<Seq<u8>>, text: Seq<char>) -> Seq<Seq<u8>>;

/// Hashes a text with `String`'s own `Hash`. What the hasher holds after it
/// depends on the text and on what the hasher held before.
#[verifier::external_body]
fn hash_text(text: &String, hasher: &mut DefaultHasher)
    ensures
        final(hasher)@ == hashed_text(old(hasher)@, text@),
{
    text.hash(hasher)
}

/// The digest of a text, in sixteen hexadecimal digits.
pub open spec fn digest_text(text: Seq<char>) -> Seq<char> {
    hex_text(DefaultHasher::spec_finish(hashed_text(Seq::empty(), text)) as nat, 16)
}

/// The digest of a container file.
pub fn digest_of(text: &String) -> (r: String)
    ensures
        r@ == digest_text(text@),
{
    let mut hasher = DefaultHasher::new();
    hash_text(text, &mut hasher);
    hex(hasher.finish(), 16)
}

/// The label under which a built image keeps its digest.
pub open spec fn label_text(digest: Seq<char>) -> Seq<char> {
    "pithos.config="@ + digest
}

impl Config {
    /// The digest of the image that the configuration describes.
    pub fn digest(&self, uid: u32, gid: u32) -> (r: Result<String, String>)
        ensures
            (match r {
                Ok(digest) => self.containerfile_text(uid as nat, gid as nat) is Ok && digest@
                    == digest_text(self.containerfile_text(uid as nat, gid as nat)->Ok_0),
                Err(message) => self.containerfile_text(uid as nat, gid as nat) == Err::<
                    Seq<char>,
                    Seq<char>,
                >(message@),
            }),
    {
        let text = self.containerfile(uid, gid)?;
        Ok(digest_of(&text))
    }

    /// The arguments of the podman command that builds the image.
    pub fn build_args(&self, digest: &str) -> (r: Vec<String>)
        ensures
            texts(r@) == seq![
                "build"@,
                "--tag"@,
                self.tag_text(),
                "--label"@,
                label_text(digest@),
                "--file"@,
                "Containerfile"@,
            ],
    {
        let r = vec![
            "build".to_owned(),
            "--tag".to_owned(),
            self.image_tag(),
            "--label".to_owned(),
            cat2("pithos.config=", digest),
            "--file".to_owned(),
            "Containerfile".to_owned(),
        ];
        assert(texts(r@) =~= seq![
            "build"@,
            "--tag"@,
            self.tag_text(),
            "--label"@,
            label_text(digest@),
            "--file"@,
            "Containerfile"@,
        ]);
        r
    }

    /// The arguments of the podman command that reads the label of the image.
    pub fn inspect_args(&self) -> (r: Vec<String>)
        ensures
            texts(r@) == seq![
                "image"@,
                "inspect"@,
                "--format"@,
                "{{ index .Labels \"pithos.config\" }}"@,
                self.tag_text(),
            ],
    {
        let r = vec![
            "image".to_owned(),
            "inspect".to_owned(),
            "--format".to_owned(),
            "{{ index .Labels \"pithos.config\" }}".to_owned(),
            self.image_tag(),
        ];
        assert(texts(r@) =~= seq![
            "image"@,
            "inspect"@,
            "--format"@,
            "{{ index .Labels \"pithos.config\" }}"@,
            self.tag_text(),
        ]);
        r
    }

    /// Whether the image matches the configuration. `label` is what podman
    /// printed of its label, where the image exists.
    pub fn image_up_to_date(&self, label: Option<&[u8]>, uid: u32, gid: u32) -> (r: Result<
        bool,
        String,
    >)
        ensures
            (match label {
                None => r == Ok::<bool, String>(false),
                Some(bytes) => match r {
                    Ok(current) => self.containerfile_text(uid as nat, gid as nat) is Ok && current
                        == (trimmed(lossy_text(bytes@), CharSet::WhiteSpace) == digest_text(
                        self.containerfile_text(uid as nat, gid as nat)->Ok_0,
                    )),
                    Err(message) => self.containerfile_text(uid as nat, gid as nat) == Err::<
                        Seq<char>,
                        Seq<char>,
                    >(message@),
                },
            }),
    {
        match label {
            None => Ok(false),
            Some(bytes) => {
                let text = decode_lossy(bytes);
                let stored = trim(text.as_str());
                let current = self.digest(uid, gid)?;
                Ok(same_text(stored.as_str(), current.as_str()))
            },
        }
    }
}

/// `first` in front of what the rest reads as.
pub open spec fn with_front(first: Seq<char>, rest: Option<Seq<char>>) -> Option<Seq<char>> {
    match rest {
        Some(text) => Some(first + text),
        None => None,
    }
}

/// How a shell reads a word made of quoted parts and escaped characters;
/// `inside` tells whether a quote is open.
pub open spec fn shell_reads(word: Seq<char>, inside: bool) -> Option<Seq<char>>
    decreases word.len(),
{
    if word.len() == 0 {
        if inside {
            None
        } else {
            Some(Seq::empty())
        }
    } else if word[0] == '\'' {
        shell_reads(word.skip(1), !inside)
    } else if inside {
        with_front(seq![word[0]], shell_reads(word.skip(1), inside))
    } else if word[0] == '\\' && word.len() >= 2 {
        with_front(seq![word[1]], shell_reads(word.skip(2), inside))
    } else {
        None
    }
}

proof fn lemma_reads_one(c: char, rest: Seq<char>)
    ensures
        shell_reads(
            (if c == '\'' {
                "'\\''"@
            } else {
                seq![c]
            }) + rest,
            true,
        ) == with_front(seq![c], shell_reads(rest, true)),
{
    if c == '\'' {
        reveal_strlit("'\\''");
        let word = "'\\''"@ + rest;
        assert(word.skip(1)[0] == '\\' && word.skip(1)[1] == '\'');
        assert(word.skip(1).skip(2)[0] == '\'');
        assert(word.skip(1).skip(2).skip(1) =~= rest);
        reveal_with_fuel(shell_reads, 4);
    } else {
        let word = seq![c] + rest;
        assert(word.skip(1) =~= rest);
    }
}

proof fn lemma_reads_replaced(value: Seq<char>, rest: Seq<char>)
    ensures
        shell_reads(replaced_char(value, '\'', "'\\''"@) + rest, true) == with_front(
            value,
            shell_reads(rest, true),
        ),
    decreases value.len(),
{
    let whole = replaced_char(value, '\'', "'\\''"@);
    if value.len() == 0 {
        assert(whole + rest =~= rest);
        if let Some(text) = shell_reads(rest, true) {
            assert(value + text =~= text);
        }
    } else {
        let front = value.drop_last();
        let c = value.last();
        let one: Seq<char> = if c == '\'' {
            "'\\''"@
        } else {
            seq![c]
        };
        assert(whole + rest =~= replaced_char(front, '\'', "'\\''"@) + (one + rest));
        lemma_reads_replaced(front, one + rest);
        lemma_reads_one(c, rest);
        if let Some(text) = shell_reads(rest, true) {
            assert(front + (seq![c] + text) =~= value + text);
        }
    }
}

/// Whatever the text, a shell reads its quotation as that one word.
pub proof fn lemma_quoted_reads_back(value: Seq<char>)
    ensures
        shell_reads(quoted(value), false) == Some(value),
{
    reveal_strlit("'");
    let inner = replaced_char(value, '\'', "'\\''"@);
    let word = quoted(value);
    assert(word[0] == '\'');
    assert(word.skip(1) =~= inner + "'"@);
    lemma_reads_replaced(value, "'"@);
    assert("'"@.skip(1) =~= Seq::<char>::empty());
    assert(shell_reads("'"@, true) == shell_reads("'"@.skip(1), false));
    assert(value + Seq::<char>::empty() =~= value);
}

/// A configuration that is accepted has a container file.
pub proof fn lemma_accepted_has_containerfile(config: &Config, uid: nat, gid: nat)
    requires
        config.problem() is None,
    ensures
        config.containerfile_text(uid, gid) is Ok,
{
}

} // verus!
