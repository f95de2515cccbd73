//! What a build makes of a container file: which commands it runs, and in which
//! order.

use super::reading::{
    is_bare, is_word, lemma_shell_one_word, lemma_shell_word, lemma_split_bare,
    lemma_split_quoted, lemma_split_quoted_words, lemma_split_space, shell_split, shell_words,
    with_first, with_words,
};
use crate::config::Config;
use crate::image::{
    downloads_text, install_text, option_text, packages_text, quoted, quoted_words, runs_text,
    uv_text, uv_tools_text,
};
use crate::text::{decimal_text, joined, lemma_free_of_add, occurs_at, text_pairs, texts};
use crate::toolchain::{expansion, Download, ToolchainDef, UvTool};
use vstd::prelude::*;
use vstd::string::*;

verus! {

/// `line` is a line of the file that begins at position `at`.
pub open spec fn step_at(file: Seq<char>, at: int, line: Seq<char>) -> bool {
    occurs_at(file, line.push('\n'), at) && (at == 0 || file[at - 1] == '\n')
}

/// At position `at` the file runs a command, given by the words that a shell
/// reads.
pub open spec fn runs_at(file: Seq<char>, at: int, command: Seq<Seq<char>>) -> bool {
    exists|line: Seq<char>| #[trigger]
        step_at(file, at, "RUN "@ + line) && shell_words(line) == Some(command)
}

/// The file runs a command between two positions.
#[verifier::opaque]
pub open spec fn runs_within(
    file: Seq<char>,
    from: int,
    to: int,
    command: Seq<Seq<char>>,
) -> bool {
    exists|at: int| from <= at < to && #[trigger] runs_at(file, at, command)
}

/// A text that is made of whole lines.
spec fn is_closed(text: Seq<char>) -> bool {
    text.len() == 0 || text.last() == '\n'
}

proof fn lemma_step_inside(
    before: Seq<char>,
    inner: Seq<char>,
    after: Seq<char>,
    at: int,
    line: Seq<char>,
)
    requires
        is_closed(before),
        step_at(inner, at, line),
    ensures
        step_at(before + inner + after, before.len() + at, line),
{
    let file = before + inner + after;
    let whole = line.push('\n');
    let there = before.len() + at;
    assert(file.subrange(there, there + whole.len()) =~= inner.subrange(at, at + whole.len()));
    if at > 0 {
        assert(file[there - 1] == inner[at - 1]);
    } else if before.len() > 0 {
        assert(file[there - 1] == before.last());
    }
}

proof fn lemma_runs_inside(
    before: Seq<char>,
    inner: Seq<char>,
    after: Seq<char>,
    command: Seq<Seq<char>>,
)
    requires
        is_closed(before),
        runs_within(inner, 0, inner.len() as int, command),
    ensures
        runs_within(
            before + inner + after,
            before.len() as int,
            (before.len() + inner.len()) as int,
            command,
        ),
{
    reveal(runs_within);
    let at = choose|at: int|
        0 <= at < inner.len() as int && #[trigger] runs_at(inner, at, command);
    let line = choose|line: Seq<char>| #[trigger]
        step_at(inner, at, "RUN "@ + line) && shell_words(line) == Some(command);
    lemma_step_inside(before, inner, after, at, "RUN "@ + line);
    assert(runs_at(before + inner + after, before.len() + at, command));
}

proof fn lemma_whole_step(line: Seq<char>)
    ensures
        step_at(line.push('\n'), 0, line),
        is_closed(line.push('\n')),
{
    let file = line.push('\n');
    assert(file.subrange(0, file.len() as int) =~= file);
}

proof fn lemma_one_run(line: Seq<char>, command: Seq<Seq<char>>)
    requires
        shell_words(line) == Some(command),
    ensures
        runs_within(
            ("RUN "@ + line).push('\n'),
            0,
            ("RUN "@ + line).push('\n').len() as int,
            command,
        ),
        is_closed(("RUN "@ + line).push('\n')),
{
    reveal(runs_within);
    let file = ("RUN "@ + line).push('\n');
    lemma_whole_step("RUN "@ + line);
    assert(runs_at(file, 0, command));
}

/// The words of a line that hands `items` to an installer.
proof fn lemma_install_words(
    prefix: Seq<char>,
    first: Seq<Seq<char>>,
    items: Seq<Seq<char>>,
    suffix: Seq<char>,
    last: Seq<Seq<char>>,
)
    requires
        is_bare(prefix),
        shell_words(prefix) == Some(first),
        items.len() > 0,
        shell_split(suffix, Some(items.last()), false) == Some(seq![items.last()] + last),
    ensures
        shell_words(prefix + " "@ + quoted_words(items) + suffix) == Some(first + items + last),
        install_text(prefix, suffix, items) is Some,
        runs_within(
            install_text(prefix, suffix, items)->Some_0,
            0,
            install_text(prefix, suffix, items)->Some_0.len() as int,
            first + items + last,
        ),
        is_closed(install_text(prefix, suffix, items)->Some_0),
{
    reveal_strlit(" ");
    reveal_strlit("\n");
    let rest = quoted_words(items) + suffix;
    let line = prefix + " "@ + quoted_words(items) + suffix;
    lemma_split_bare(prefix, rest, None);
    assert(line =~= prefix + (seq![' '] + rest));
    lemma_split_quoted_words(items, suffix);
    assert(items.drop_last() + (seq![items.last()] + last) =~= items + last);
    assert(first + (items + last) =~= first + items + last);
    lemma_one_run(line, first + items + last);
    assert(install_text(prefix, suffix, items)->Some_0 =~= ("RUN "@ + line).push('\n'));
}

proof fn lemma_no_suffix(word: Seq<char>)
    ensures
        shell_split(""@, Some(word), false) == Some(seq![word] + Seq::<Seq<char>>::empty()),
{
    reveal_strlit("");
    assert(""@ =~= Seq::empty());
    assert(seq![word] + Seq::<Seq<char>>::empty() =~= seq![word]);
}

/// The command that installs Debian packages.
pub open spec fn apt_command(items: Seq<Seq<char>>) -> Seq<Seq<char>> {
    seq![
        "apt-get"@,
        "update"@,
        "&&"@,
        "apt-get"@,
        "install"@,
        "-y"@,
        "--no-install-recommends"@,
    ] + items + seq!["&&"@, "rm"@, "-rf"@, "/var/lib/apt/lists/*"@]
}

proof fn lemma_apt(items: Seq<Seq<char>>)
    requires
        items.len() > 0,
    ensures
        packages_text(items) is Some,
        runs_within(
            packages_text(items)->Some_0,
            0,
            packages_text(items)->Some_0.len() as int,
            apt_command(items),
        ),
        is_closed(packages_text(items)->Some_0),
{
    reveal_strlit("apt-get update && apt-get install -y --no-install-recommends");
    reveal_strlit(" && rm -rf /var/lib/apt/lists/*");
    reveal_strlit("apt-get");
    reveal_strlit("update");
    reveal_strlit("&&");
    reveal_strlit("install");
    reveal_strlit("-y");
    reveal_strlit("--no-install-recommends");
    reveal_strlit("rm");
    reveal_strlit("-rf");
    reveal_strlit("/var/lib/apt/lists/*");
    let space = seq![' '];
    let prefix = "apt-get update && apt-get install -y --no-install-recommends"@;
    let suffix = " && rm -rf /var/lib/apt/lists/*"@;
    let seven = "--no-install-recommends"@;
    let six = "-y"@ + (space + seven);
    let five = "install"@ + (space + six);
    let four = "apt-get"@ + (space + five);
    let three = "&&"@ + (space + four);
    let two = "update"@ + (space + three);
    assert(prefix =~= "apt-get"@ + (space + two));
    lemma_shell_word("apt-get"@, two);
    lemma_shell_word("update"@, three);
    lemma_shell_word("&&"@, four);
    lemma_shell_word("apt-get"@, five);
    lemma_shell_word("install"@, six);
    lemma_shell_word("-y"@, seven);
    lemma_shell_one_word(seven);
    let first = seq![
        "apt-get"@,
        "update"@,
        "&&"@,
        "apt-get"@,
        "install"@,
        "-y"@,
        "--no-install-recommends"@,
    ];
    assert(shell_words(prefix)->Some_0 =~= first);
    let d = "/var/lib/apt/lists/*"@;
    let c = "-rf"@ + (space + d);
    let b = "rm"@ + (space + c);
    let a = "&&"@ + (space + b);
    assert(suffix =~= space + a);
    lemma_split_space(items.last(), a);
    lemma_shell_word("&&"@, b);
    lemma_shell_word("rm"@, c);
    lemma_shell_word("-rf"@, d);
    lemma_shell_one_word(d);
    let last = seq!["&&"@, "rm"@, "-rf"@, "/var/lib/apt/lists/*"@];
    assert(shell_words(a)->Some_0 =~= last);
    lemma_install_words(prefix, first, items, suffix, last);
}

/// The commands that install packages with one tool.
pub open spec fn cargo_command(items: Seq<Seq<char>>) -> Seq<Seq<char>> {
    seq!["cargo"@, "install"@, "--root"@, "/usr/local"@] + items
}

pub open spec fn npm_command(items: Seq<Seq<char>>) -> Seq<Seq<char>> {
    seq!["npm"@, "install"@, "--global"@] + items
}

pub open spec fn bun_command(items: Seq<Seq<char>>) -> Seq<Seq<char>> {
    seq!["bun"@, "install"@, "--global"@] + items
}

proof fn lemma_plain_install(prefix: Seq<char>, first: Seq<Seq<char>>, items: Seq<Seq<char>>)
    requires
        is_bare(prefix),
        shell_words(prefix) == Some(first),
        items.len() > 0,
    ensures
        install_text(prefix, ""@, items) is Some,
        runs_within(
            install_text(prefix, ""@, items)->Some_0,
            0,
            install_text(prefix, ""@, items)->Some_0.len() as int,
            first + items,
        ),
        is_closed(install_text(prefix, ""@, items)->Some_0),
{
    lemma_no_suffix(items.last());
    let none = Seq::<Seq<char>>::empty();
    lemma_install_words(prefix, first, items, ""@, none);
    assert(first + items + none =~= first + items);
}

proof fn lemma_installers()
    ensures
        is_bare("cargo install --root /usr/local"@),
        shell_words("cargo install --root /usr/local"@) == Some(
            seq!["cargo"@, "install"@, "--root"@, "/usr/local"@],
        ),
        is_bare("npm install --global"@),
        shell_words("npm install --global"@) == Some(seq!["npm"@, "install"@, "--global"@]),
        is_bare("bun install --global"@),
        shell_words("bun install --global"@) == Some(seq!["bun"@, "install"@, "--global"@]),
        is_bare("npm install --global bun && bun install --global"@),
        shell_words("npm install --global bun && bun install --global"@) == Some(
            seq![
                "npm"@,
                "install"@,
                "--global"@,
                "bun"@,
                "&&"@,
                "bun"@,
                "install"@,
                "--global"@,
            ],
        ),
{
    reveal_strlit("cargo install --root /usr/local");
    reveal_strlit("npm install --global");
    reveal_strlit("bun install --global");
    reveal_strlit("npm install --global bun && bun install --global");
    reveal_strlit("cargo");
    reveal_strlit("install");
    reveal_strlit("--root");
    reveal_strlit("/usr/local");
    reveal_strlit("npm");
    reveal_strlit("bun");
    reveal_strlit("&&");
    reveal_strlit("--global");
    let space = seq![' '];
    let c3 = "--root"@ + (space + "/usr/local"@);
    let c2 = "install"@ + (space + c3);
    assert("cargo install --root /usr/local"@ =~= "cargo"@ + (space + c2));
    lemma_shell_word("cargo"@, c2);
    lemma_shell_word("install"@, c3);
    lemma_shell_word("--root"@, "/usr/local"@);
    lemma_shell_one_word("/usr/local"@);
    assert(shell_words("cargo install --root /usr/local"@)->Some_0 =~= seq![
        "cargo"@,
        "install"@,
        "--root"@,
        "/usr/local"@,
    ]);
    let global = "install"@ + (space + "--global"@);
    lemma_shell_one_word("--global"@);
    lemma_shell_word("install"@, "--global"@);
    lemma_shell_word("npm"@, global);
    lemma_shell_word("bun"@, global);
    assert("npm install --global"@ =~= "npm"@ + (space + global));
    assert("bun install --global"@ =~= "bun"@ + (space + global));
    assert(shell_words("npm install --global"@)->Some_0 =~= seq![
        "npm"@,
        "install"@,
        "--global"@,
    ]);
    assert(shell_words("bun install --global"@)->Some_0 =~= seq![
        "bun"@,
        "install"@,
        "--global"@,
    ]);
    let e = "bun"@ + (space + global);
    let d = "&&"@ + (space + e);
    let c = "bun"@ + (space + d);
    let b = "--global"@ + (space + c);
    let a = "install"@ + (space + b);
    assert("npm install --global bun && bun install --global"@ =~= "npm"@ + (space + a));
    lemma_shell_word("npm"@, a);
    lemma_shell_word("install"@, b);
    lemma_shell_word("--global"@, c);
    lemma_shell_word("bun"@, d);
    lemma_shell_word("&&"@, e);
    assert(shell_words("npm install --global bun && bun install --global"@)->Some_0 =~= seq![
        "npm"@,
        "install"@,
        "--global"@,
        "bun"@,
        "&&"@,
        "bun"@,
        "install"@,
        "--global"@,
    ]);
}

/// A command asks mise for a tool.
pub open spec fn asks_mise(command: Seq<Seq<char>>, tool: Seq<char>) -> bool {
    exists|k: int, j: int|
        0 <= k && k + 4 <= j < command.len() && command[k] == "mise"@ && command[k + 1] == "use"@
            && command[k + 2] == "-g"@ && command[k + 3] == "--yes"@ && #[trigger] asked(
            command,
            k,
            j,
            tool,
        )
}

pub open spec fn asked(command: Seq<Seq<char>>, k: int, j: int, tool: Seq<char>) -> bool {
    k < j && command[j] == tool
}

/// Between two positions the file has mise install a tool.
#[verifier::opaque]
pub open spec fn has_tool(file: Seq<char>, from: int, to: int, tool: Seq<char>) -> bool {
    exists|at: int, command: Seq<Seq<char>>|
        from <= at < to && #[trigger] runs_at(file, at, command) && asks_mise(command, tool)
}

proof fn lemma_mise(items: Seq<Seq<char>>)
    requires
        items.len() > 0,
    ensures
        crate::image::mise_text(items) is Some,
        forall|tool: Seq<char>| #[trigger]
            items.contains(tool) ==> has_tool(
                crate::image::mise_text(items)->Some_0,
                0,
                crate::image::mise_text(items)->Some_0.len() as int,
                tool,
            ),
        is_closed(crate::image::mise_text(items)->Some_0),
{
    reveal(has_tool);
    reveal_strlit(
        "RUN (command -v mise >/dev/null 2>&1 || (apt-get update && apt-get install -y --no-install-recommends curl ca-certificates && rm -rf /var/lib/apt/lists/* && curl -fsSL https://mise.run | MISE_INSTALL_PATH=/usr/local/bin/mise sh)) && mise use -g --yes ",
    );
    reveal_strlit(
        "(command -v mise >/dev/null 2>&1 || (apt-get update && apt-get install -y --no-install-recommends curl ca-certificates && rm -rf /var/lib/apt/lists/* && curl -fsSL https://mise.run | MISE_INSTALL_PATH=/usr/local/bin/mise sh)) &&",
    );
    reveal_strlit("RUN ");
    reveal_strlit("mise");
    reveal_strlit("use");
    reveal_strlit("-g");
    reveal_strlit("--yes");
    reveal_strlit("\n");
    let space = seq![' '];
    let front =
        "(command -v mise >/dev/null 2>&1 || (apt-get update && apt-get install -y --no-install-recommends curl ca-certificates && rm -rf /var/lib/apt/lists/* && curl -fsSL https://mise.run | MISE_INSTALL_PATH=/usr/local/bin/mise sh)) &&"@;
    let four = "--yes"@ + (space + quoted_words(items));
    let three = "-g"@ + (space + four);
    let two = "use"@ + (space + three);
    let one = "mise"@ + (space + two);
    let line = front + (space + one);
    assert(
        "RUN (command -v mise >/dev/null 2>&1 || (apt-get update && apt-get install -y --no-install-recommends curl ca-certificates && rm -rf /var/lib/apt/lists/* && curl -fsSL https://mise.run | MISE_INSTALL_PATH=/usr/local/bin/mise sh)) && mise use -g --yes "@
            =~= "RUN "@ + front + space + "mise"@ + space + "use"@ + space + "-g"@ + space
            + "--yes"@ + space);
    let text = crate::image::mise_text(items)->Some_0;
    assert(text =~= ("RUN "@ + line).push('\n'));
    lemma_split_bare(front, one, None);
    lemma_shell_word("mise"@, two);
    lemma_shell_word("use"@, three);
    lemma_shell_word("-g"@, four);
    lemma_shell_word("--yes"@, quoted_words(items));
    super::reading::lemma_shell_words_quoted(items);
    let before = shell_words(front)->Some_0;
    let call = seq!["mise"@, "use"@, "-g"@, "--yes"@];
    assert(seq!["mise"@] + (seq!["use"@] + (seq!["-g"@] + (seq!["--yes"@] + items))) =~= call
        + items);
    let command = before + (call + items);
    assert(shell_words(line) == Some(command));
    lemma_one_run(line, command);
    lemma_whole_step("RUN "@ + line);
    assert(runs_at(text, 0, command));
    assert forall|tool: Seq<char>| #[trigger] items.contains(tool) implies has_tool(
        text,
        0,
        text.len() as int,
        tool,
    ) by {
        let i = choose|i: int| 0 <= i < items.len() && items[i] == tool;
        let k = before.len() as int;
        assert(command[k] == "mise"@ && command[k + 1] == "use"@ && command[k + 2] == "-g"@
            && command[k + 3] == "--yes"@);
        assert(command[k + 4 + i] == tool);
        assert(asked(command, k, k + 4 + i, tool));
    }
}

proof fn lemma_tool_inside(
    before: Seq<char>,
    inner: Seq<char>,
    after: Seq<char>,
    tool: Seq<char>,
)
    requires
        is_closed(before),
        has_tool(inner, 0, inner.len() as int, tool),
    ensures
        has_tool(
            before + inner + after,
            before.len() as int,
            (before.len() + inner.len()) as int,
            tool,
        ),
{
    reveal(has_tool);
    let (at, command) = choose|at: int, command: Seq<Seq<char>>|
        0 <= at < inner.len() as int && #[trigger] runs_at(inner, at, command) && asks_mise(
            command,
            tool,
        );
    let line = choose|line: Seq<char>| #[trigger]
        step_at(inner, at, "RUN "@ + line) && shell_words(line) == Some(command);
    lemma_step_inside(before, inner, after, at, "RUN "@ + line);
    assert(runs_at(before + inner + after, before.len() + at, command));
}

/// The command that installs a tool with uv.
pub open spec fn uv_command(tool: UvTool) -> Seq<Seq<char>> {
    seq!["uv"@, "tool"@, "install"@, tool.name@] + (match tool.python {
        Some(python) => seq!["--python"@, python@],
        None => Seq::empty(),
    })
}

/// Between two positions the file runs a line as it is written.
#[verifier::opaque]
pub open spec fn runs_line(file: Seq<char>, from: int, to: int, line: Seq<char>) -> bool {
    exists|at: int| from <= at < to && #[trigger] step_at(file, at, "RUN "@ + line)
}

proof fn lemma_line_inside(
    before: Seq<char>,
    inner: Seq<char>,
    after: Seq<char>,
    line: Seq<char>,
)
    requires
        is_closed(before),
        runs_line(inner, 0, inner.len() as int, line),
    ensures
        runs_line(
            before + inner + after,
            before.len() as int,
            (before.len() + inner.len()) as int,
            line,
        ),
{
    reveal(runs_line);
    let at = choose|at: int|
        0 <= at < inner.len() as int && #[trigger] step_at(inner, at, "RUN "@ + line);
    lemma_step_inside(before, inner, after, at, "RUN "@ + line);
}

#[verifier::rlimit(60)]
proof fn lemma_uv(tool: UvTool)
    ensures
        runs_within(uv_text(tool), 0, uv_text(tool).len() as int, uv_command(tool)),
        tool.run is Some ==> runs_line(
            uv_text(tool),
            0,
            uv_text(tool).len() as int,
            tool.run->Some_0@,
        ),
        is_closed(uv_text(tool)),
{
    reveal(runs_within);
    reveal(runs_line);
    reveal_strlit("RUN uv tool install ");
    reveal_strlit("RUN ");
    reveal_strlit("uv");
    reveal_strlit("tool");
    reveal_strlit("install");
    reveal_strlit(" --python ");
    reveal_strlit("--python");
    reveal_strlit("\n");
    let space = seq![' '];
    let none = Seq::<char>::empty();
    let tail = match tool.python {
        Some(python) => quoted(tool.name@) + (space + ("--python"@ + (space + quoted(python@)))),
        None => quoted(tool.name@),
    };
    let three = "install"@ + (space + tail);
    let two = "tool"@ + (space + three);
    let line = "uv"@ + (space + two);
    lemma_shell_word("uv"@, two);
    lemma_shell_word("tool"@, three);
    lemma_shell_word("install"@, tail);
    match tool.python {
        Some(python) => {
            lemma_split_quoted(
                tool.name@,
                space + ("--python"@ + (space + quoted(python@))),
                None,
            );
            lemma_split_space(tool.name@, "--python"@ + (space + quoted(python@)));
            lemma_shell_word("--python"@, quoted(python@));
            lemma_split_quoted(python@, none, None);
            assert(quoted(python@) + none =~= quoted(python@));
        },
        None => {
            lemma_split_quoted(tool.name@, none, None);
            assert(quoted(tool.name@) + none =~= quoted(tool.name@));
        },
    }
    assert(shell_words(line)->Some_0 =~= uv_command(tool));
    lemma_one_run(line, uv_command(tool));
    let first = ("RUN "@ + line).push('\n');
    let second = option_text(
        (match tool.run {
            Some(run) => Some("RUN "@ + run@ + "\n"@),
            None => None,
        }),
    );
    assert(uv_text(tool) =~= none + first + second);
    lemma_runs_inside(none, first, second, uv_command(tool));
    if let Some(run) = tool.run {
        assert(second =~= ("RUN "@ + run@).push('\n'));
        lemma_whole_step("RUN "@ + run@);
        assert(runs_line(second, 0, second.len() as int, run@));
        lemma_line_inside(first, second, none, run@);
        assert(uv_text(tool) =~= first + second + none);
    }
}

/// Every tool of a list is installed, and what is to run behind it runs.
spec fn uv_tools_run(file: Seq<char>, from: int, to: int, tools: Seq<UvTool>) -> bool {
    forall|i: int|
        0 <= i < tools.len() ==> runs_within(file, from, to, uv_command(#[trigger] tools[i])) && (
        tools[i].run is Some ==> runs_line(file, from, to, tools[i].run->Some_0@))
}

proof fn lemma_uv_tools(tools: Seq<UvTool>)
    ensures
        uv_tools_run(uv_tools_text(tools), 0, uv_tools_text(tools).len() as int, tools),
        is_closed(uv_tools_text(tools)),
    decreases tools.len(),
{
    reveal(runs_within);
    reveal(runs_line);
    if tools.len() > 0 {
        let front = tools.drop_last();
        let last = tools.last();
        let none = Seq::<char>::empty();
        lemma_uv_tools(front);
        lemma_uv(last);
        let before = uv_tools_text(front);
        let one = uv_text(last);
        let all = uv_tools_text(tools);
        assert(all =~= none + before + one);
        assert(all =~= before + one + none);
        lemma_runs_inside(before, one, none, uv_command(last));
        if last.run is Some {
            lemma_line_inside(before, one, none, last.run->Some_0@);
        }
        assert forall|i: int| 0 <= i < tools.len() implies runs_within(
            all,
            0,
            all.len() as int,
            uv_command(#[trigger] tools[i]),
        ) && (tools[i].run is Some ==> runs_line(
            all,
            0,
            all.len() as int,
            tools[i].run->Some_0@,
        )) by {
            if i < front.len() {
                assert(front[i] == tools[i]);
                lemma_runs_inside(none, before, one, uv_command(front[i]));
                if front[i].run is Some {
                    lemma_line_inside(none, before, one, front[i].run->Some_0@);
                }
            }
        }
    }
}

/// Every line of a list is run.
pub open spec fn lines_run(file: Seq<char>, from: int, to: int, list: Seq<Seq<char>>) -> bool {
    forall|i: int| 0 <= i < list.len() ==> runs_line(file, from, to, #[trigger] list[i])
}

proof fn lemma_run_last(before: Seq<char>, last: Seq<char>)
    requires
        is_closed(before),
    ensures
        runs_line(
            before + ("RUN "@ + last + "\n"@),
            0,
            (before + ("RUN "@ + last + "\n"@)).len() as int,
            last,
        ),
        is_closed(before + ("RUN "@ + last + "\n"@)),
{
    reveal(runs_line);
    reveal_strlit("\n");
    let none = Seq::<char>::empty();
    let one = "RUN "@ + last + "\n"@;
    assert(one =~= ("RUN "@ + last).push('\n'));
    lemma_whole_step("RUN "@ + last);
    assert(runs_line(one, 0, one.len() as int, last));
    lemma_line_inside(before, one, none, last);
    assert(before + one + none =~= before + one);
}

proof fn lemma_runs(commands: Seq<Seq<char>>)
    ensures
        lines_run(runs_text(commands), 0, runs_text(commands).len() as int, commands),
        is_closed(runs_text(commands)),
    decreases commands.len(),
{
    reveal(runs_line);
    if commands.len() > 0 {
        let front = commands.drop_last();
        let last = commands.last();
        lemma_runs(front);
        let before = runs_text(front);
        let one = "RUN "@ + last + "\n"@;
        let all = runs_text(commands);
        lemma_run_last(before, last);
        assert forall|i: int| 0 <= i < commands.len() implies runs_line(
            all,
            0,
            all.len() as int,
            #[trigger] commands[i],
        ) by {
            if i < front.len() {
                let none = Seq::<char>::empty();
                assert(front[i] == commands[i]);
                assert(runs_line(before, 0, before.len() as int, front[i]));
                lemma_line_inside(none, before, one, front[i]);
                assert(none + before + one =~= all);
            }
        }
    }
}

/// A command fetches a script and hands it to a shell that has the variables.
pub open spec fn fetches(command: Seq<Seq<char>>, download: Download) -> bool {
    let last = seq!["curl"@, "-fsSL"@, download.url@, "|"@] + assigned(
        text_pairs(download.env@),
    ) + seq!["sh"@];
    command.len() >= last.len() && command.skip(command.len() - last.len()) == last
}

/// `KEY=value` for each variable.
pub open spec fn assigned(env: Seq<(Seq<char>, Seq<char>)>) -> Seq<Seq<char>> {
    Seq::new(env.len(), |i: int| env[i].0 + "="@ + env[i].1)
}

/// The names of variables are plain words.
pub open spec fn plain_names(env: Seq<(Seq<char>, Seq<char>)>) -> bool {
    forall|i: int| 0 <= i < env.len() ==> is_word((#[trigger] env[i]).0) && is_bare(env[i].0)
}

proof fn lemma_assignments(env: Seq<(Seq<char>, Seq<char>)>, rest: Seq<char>)
    requires
        plain_names(env),
        env.len() > 0,
    ensures
        shell_words(joined(crate::image::assignments(env, true), " "@) + rest) == with_words(
            assigned(env).drop_last(),
            shell_split(rest, Some(assigned(env).last()), false),
        ),
        joined(crate::image::assignments(env, true), " "@).len() > 0,
    decreases env.len(),
{
    reveal_strlit(" ");
    reveal_strlit("=");
    let all = crate::image::assignments(env, true);
    let last = env.last();
    assert(is_word(env[env.len() - 1].0));
    let one = last.0 + "="@ + quoted(last.1);
    let name = last.0 + "="@;
    lemma_free_of_add(last.0, "="@, ' ');
    lemma_free_of_add(last.0, "="@, '\'');
    lemma_free_of_add(last.0, "="@, '\\');
    super::reading::lemma_split_word(name, quoted(last.1) + rest, None);
    lemma_split_quoted(last.1, rest, Some(name));
    assert(name + (quoted(last.1) + rest) =~= one + rest);
    assert(shell_words(one + rest) == shell_split(rest, Some(assigned(env).last()), false));
    if env.len() == 1 {
        assert(joined(all, " "@) == all[0]);
        assert(all[0] == one);
        assert(assigned(env).drop_last() =~= Seq::empty());
        if let Some(list) = shell_split(rest, Some(assigned(env).last()), false) {
            assert(assigned(env).drop_last() + list =~= list);
        }
    } else {
        let front = env.drop_last();
        assert forall|i: int| 0 <= i < front.len() implies is_word((#[trigger] front[i]).0)
            && is_bare(front[i].0) by {
            assert(front[i] == env[i]);
        }
        assert(crate::image::assignments(front, true) =~= all.drop_last());
        let tail = one + rest;
        assert(joined(all, " "@) + rest =~= joined(all.drop_last(), " "@) + (seq![' '] + tail));
        lemma_assignments(front, seq![' '] + tail);
        lemma_split_space(assigned(front).last(), tail);
        assert(assigned(env).drop_last() =~= assigned(front));
        if let Some(list) = shell_split(rest, Some(assigned(env).last()), false) {
            assert(assigned(front).drop_last() + (seq![assigned(front).last()] + list)
                =~= assigned(front) + list);
        }
    }
}

proof fn lemma_download(download: Download)
    requires
        plain_names(text_pairs(download.env@)),
    ensures
        shell_words(download.command_text()) is Some,
        fetches(shell_words(download.command_text())->Some_0, download),
{
    reveal_strlit(
        "apt-get update && apt-get install -y --no-install-recommends curl ca-certificates unzip && rm -rf /var/lib/apt/lists/* && curl -fsSL ",
    );
    reveal_strlit(
        "apt-get update && apt-get install -y --no-install-recommends curl ca-certificates unzip && rm -rf /var/lib/apt/lists/* &&",
    );
    reveal_strlit("curl");
    reveal_strlit("-fsSL");
    reveal_strlit(" | ");
    reveal_strlit("|");
    reveal_strlit("sh");
    reveal_strlit(" ");
    let space = seq![' '];
    let env = text_pairs(download.env@);
    let front =
        "apt-get update && apt-get install -y --no-install-recommends curl ca-certificates unzip && rm -rf /var/lib/apt/lists/* &&"@;
    let assigning = joined(crate::image::assignments(env, true), " "@);
    let run = if env.len() == 0 {
        "sh"@
    } else {
        assigning + (space + "sh"@)
    };
    let pipe = "|"@ + (space + run);
    let url = quoted(download.url@) + (space + pipe);
    let option = "-fsSL"@ + (space + url);
    let fetch = "curl"@ + (space + option);
    let line = front + (space + fetch);
    lemma_shell_one_word("sh"@);
    if env.len() == 0 {
        assert(crate::image::assignments(env, true) =~= Seq::empty());
        assert(assigned(env) =~= Seq::empty());
        assert(shell_words(run)->Some_0 =~= assigned(env) + seq!["sh"@]);
    } else {
        lemma_assignments(env, space + "sh"@);
        lemma_split_space(assigned(env).last(), "sh"@);
        assert(shell_words(run)->Some_0 =~= assigned(env) + seq!["sh"@]);
    }
    lemma_shell_word("|"@, run);
    lemma_split_quoted(download.url@, space + pipe, None);
    lemma_split_space(download.url@, pipe);
    lemma_shell_word("-fsSL"@, url);
    lemma_shell_word("curl"@, option);
    lemma_split_bare(front, fetch, None);
    let words = seq!["curl"@, "-fsSL"@, download.url@, "|"@] + assigned(env) + seq!["sh"@];
    assert(shell_words(fetch)->Some_0 =~= words);
    assert(
        "apt-get update && apt-get install -y --no-install-recommends curl ca-certificates unzip && rm -rf /var/lib/apt/lists/* && curl -fsSL "@
            =~= front + space + "curl"@ + space + "-fsSL"@ + space);
    assert(download.command_text() =~= line);
    let all = shell_words(front)->Some_0 + words;
    assert(shell_words(line) == Some(all));
    assert(all.skip(all.len() - words.len()) =~= words);
}

/// Between two positions the file fetches a script and runs it.
#[verifier::opaque]
pub open spec fn runs_script(file: Seq<char>, from: int, to: int, download: Download) -> bool {
    exists|at: int, command: Seq<Seq<char>>|
        from <= at < to && #[trigger] runs_at(file, at, command) && fetches(command, download)
}

proof fn lemma_script_inside(
    before: Seq<char>,
    inner: Seq<char>,
    after: Seq<char>,
    download: Download,
)
    requires
        is_closed(before),
        runs_script(inner, 0, inner.len() as int, download),
    ensures
        runs_script(
            before + inner + after,
            before.len() as int,
            (before.len() + inner.len()) as int,
            download,
        ),
{
    reveal(runs_script);
    let (at, command) = choose|at: int, command: Seq<Seq<char>>|
        0 <= at < inner.len() as int && #[trigger] runs_at(inner, at, command) && fetches(
            command,
            download,
        );
    let line = choose|line: Seq<char>| #[trigger]
        step_at(inner, at, "RUN "@ + line) && shell_words(line) == Some(command);
    lemma_step_inside(before, inner, after, at, "RUN "@ + line);
    assert(runs_at(before + inner + after, before.len() + at, command));
}

proof fn lemma_script_last(before: Seq<char>, last: Download)
    requires
        is_closed(before),
        plain_names(text_pairs(last.env@)),
    ensures
        runs_script(
            before + ("RUN "@ + last.command_text() + "\n"@),
            0,
            (before + ("RUN "@ + last.command_text() + "\n"@)).len() as int,
            last,
        ),
{
    reveal(runs_script);
    reveal_strlit("\n");
    let none = Seq::<char>::empty();
    let one = "RUN "@ + last.command_text() + "\n"@;
    lemma_download(last);
    assert(one =~= ("RUN "@ + last.command_text()).push('\n'));
    lemma_whole_step("RUN "@ + last.command_text());
    assert(runs_at(one, 0, shell_words(last.command_text())->Some_0));
    assert(runs_script(one, 0, one.len() as int, last));
    lemma_script_inside(before, one, none, last);
    assert(before + one + none =~= before + one);
    let all = before + one;
    let (at, command) = choose|at: int, command: Seq<Seq<char>>|
        before.len() <= at < before.len() + one.len() && #[trigger] runs_at(all, at, command)
            && fetches(command, last);
    assert(runs_at(all, at, command));
}

/// Every script of a list is fetched and run.
spec fn scripts_run(file: Seq<char>, scripts: Seq<Download>) -> bool {
    forall|i: int|
        0 <= i < scripts.len() ==> runs_script(
            file,
            0,
            file.len() as int,
            #[trigger] scripts[i],
        )
}

spec fn all_plain(scripts: Seq<Download>) -> bool {
    forall|i: int|
        0 <= i < scripts.len() ==> plain_names(text_pairs((#[trigger] scripts[i]).env@))
}

proof fn lemma_downloads(downloads: Seq<Download>)
    requires
        all_plain(downloads),
    ensures
        scripts_run(downloads_text(downloads), downloads),
    decreases downloads.len(),
{
    reveal(runs_script);
    if downloads.len() > 0 {
        let front = downloads.drop_last();
        let last = downloads.last();
        assert(downloads[downloads.len() - 1] == last);
        assert forall|i: int| 0 <= i < front.len() implies plain_names(
            text_pairs((#[trigger] front[i]).env@),
        ) by {
            assert(front[i] == downloads[i]);
        }
        lemma_downloads(front);
        lemma_downloads_closed(front);
        let before = downloads_text(front);
        let one = "RUN "@ + last.command_text() + "\n"@;
        let all = downloads_text(downloads);
        lemma_script_last(before, last);
        assert(all =~= before + one);
        assert forall|i: int| 0 <= i < downloads.len() implies runs_script(
            all,
            0,
            all.len() as int,
            #[trigger] downloads[i],
        ) by {
            if i < front.len() {
                let none = Seq::<char>::empty();
                assert(front[i] == downloads[i]);
                lemma_script_inside(none, before, one, front[i]);
                assert(none + before + one =~= all);
                let (at, command) = choose|at: int, command: Seq<Seq<char>>|
                    0 <= at < before.len() && #[trigger] runs_at(
                        none + before + one,
                        at,
                        command,
                    ) && fetches(command, front[i]);
                assert(runs_at(all, at, command));
            }
        }
    }
}

proof fn lemma_downloads_closed(downloads: Seq<Download>)
    ensures
        is_closed(downloads_text(downloads)),
{
    reveal_strlit("\n");
}

/// Texts one behind the other.
spec fn concat(list: Seq<Seq<char>>) -> Seq<char>
    decreases list.len(),
{
    if list.len() == 0 {
        Seq::empty()
    } else {
        concat(list.drop_last()) + list.last()
    }
}

spec fn start_of(list: Seq<Seq<char>>, k: int) -> int {
    concat(list.take(k)).len() as int
}

spec fn all_closed(list: Seq<Seq<char>>) -> bool {
    forall|i: int| 0 <= i < list.len() ==> is_closed(#[trigger] list[i])
}

proof fn lemma_concat_push(list: Seq<Seq<char>>, text: Seq<char>)
    ensures
        concat(list.push(text)) == concat(list) + text,
{
    assert(list.push(text).drop_last() =~= list);
}

proof fn lemma_concat_add(first: Seq<Seq<char>>, second: Seq<Seq<char>>)
    ensures
        concat(first + second) == concat(first) + concat(second),
    decreases second.len(),
{
    if second.len() == 0 {
        assert(first + second =~= first);
        assert(concat(first) + concat(second) =~= concat(first));
    } else {
        assert((first + second).drop_last() =~= first + second.drop_last());
        lemma_concat_add(first, second.drop_last());
        assert(concat(first + second) =~= concat(first) + concat(second));
    }
}

proof fn lemma_concat_closed(list: Seq<Seq<char>>)
    requires
        all_closed(list),
    ensures
        is_closed(concat(list)),
    decreases list.len(),
{
    if list.len() > 0 {
        let front = list.drop_last();
        assert forall|i: int| 0 <= i < front.len() implies is_closed(#[trigger] front[i]) by {
            assert(is_closed(list[i]));
        }
        lemma_concat_closed(front);
        assert(is_closed(list[list.len() - 1]));
        if list.last().len() == 0 {
            assert(concat(list) =~= concat(front));
        } else {
            assert(concat(list).last() == list.last().last());
        }
    }
}

/// A section, with what stands before it and behind it.
proof fn lemma_section(list: Seq<Seq<char>>, k: int)
    requires
        all_closed(list),
        0 <= k < list.len(),
    ensures
        concat(list) == concat(list.take(k)) + list[k] + concat(list.skip(k + 1)),
        is_closed(concat(list.take(k))),
        start_of(list, k + 1) == start_of(list, k) + list[k].len(),
        forall|a: int, b: int|
            0 <= a <= b <= list.len() ==> #[trigger] start_of(list, a) <= #[trigger] start_of(
                list,
                b,
            ),
{
    lemma_concat_add(list.take(k), list.skip(k));
    assert(list.take(k) + list.skip(k) =~= list);
    lemma_concat_add(seq![list[k]], list.skip(k + 1));
    assert(seq![list[k]] + list.skip(k + 1) =~= list.skip(k));
    lemma_concat_push(Seq::empty(), list[k]);
    assert(Seq::<Seq<char>>::empty().push(list[k]) =~= seq![list[k]]);
    assert(concat(seq![list[k]]) =~= list[k]);
    assert(concat(list) =~= concat(list.take(k)) + list[k] + concat(list.skip(k + 1)));
    assert forall|i: int| 0 <= i < list.take(k).len() implies is_closed(
        #[trigger] list.take(k)[i],
    ) by {
        assert(is_closed(list[i]));
    }
    lemma_concat_closed(list.take(k));
    lemma_concat_push(list.take(k), list[k]);
    assert(list.take(k).push(list[k]) =~= list.take(k + 1));
    assert forall|a: int, b: int| 0 <= a <= b <= list.len() implies #[trigger] start_of(list, a)
        <= #[trigger] start_of(list, b) by {
        lemma_concat_add(list.take(a), list.subrange(a, b));
        assert(list.take(a) + list.subrange(a, b) =~= list.take(b));
    }
}

/// A wider range holds what a narrower one does.
proof fn lemma_widened(
    file: Seq<char>,
    from: int,
    to: int,
    wide_from: int,
    wide_to: int,
    command: Seq<Seq<char>>,
)
    requires
        wide_from <= from,
        to <= wide_to,
        runs_within(file, from, to, command),
    ensures
        runs_within(file, wide_from, wide_to, command),
{
    reveal(runs_within);
    let at = choose|at: int| from <= at < to && #[trigger] runs_at(file, at, command);
    assert(runs_at(file, at, command));
}

proof fn lemma_section_runs(
    list: Seq<Seq<char>>,
    k: int,
    from: int,
    to: int,
    command: Seq<Seq<char>>,
)
    requires
        all_closed(list),
        0 <= from <= k < to <= list.len(),
        runs_within(list[k], 0, list[k].len() as int, command),
    ensures
        runs_within(concat(list), start_of(list, from), start_of(list, to), command),
{
    lemma_section(list, k);
    lemma_runs_inside(concat(list.take(k)), list[k], concat(list.skip(k + 1)), command);
    lemma_widened(
        concat(list),
        start_of(list, k),
        start_of(list, k + 1),
        start_of(list, from),
        start_of(list, to),
        command,
    );
}

proof fn lemma_section_tool(list: Seq<Seq<char>>, k: int, from: int, to: int, tool: Seq<char>)
    requires
        all_closed(list),
        0 <= from <= k < to <= list.len(),
        has_tool(list[k], 0, list[k].len() as int, tool),
    ensures
        has_tool(concat(list), start_of(list, from), start_of(list, to), tool),
{
    reveal(has_tool);
    lemma_section(list, k);
    lemma_tool_inside(concat(list.take(k)), list[k], concat(list.skip(k + 1)), tool);
    let (at, command) = choose|at: int, command: Seq<Seq<char>>|
        start_of(list, k) <= at < start_of(list, k + 1) && #[trigger] runs_at(
            concat(list),
            at,
            command,
        ) && asks_mise(command, tool);
    assert(runs_at(concat(list), at, command));
}

proof fn lemma_section_line(list: Seq<Seq<char>>, k: int, from: int, to: int, line: Seq<char>)
    requires
        all_closed(list),
        0 <= from <= k < to <= list.len(),
        runs_line(list[k], 0, list[k].len() as int, line),
    ensures
        runs_line(concat(list), start_of(list, from), start_of(list, to), line),
{
    reveal(runs_line);
    lemma_section(list, k);
    lemma_line_inside(concat(list.take(k)), list[k], concat(list.skip(k + 1)), line);
    let at = choose|at: int|
        start_of(list, k) <= at < start_of(list, k + 1) && #[trigger] step_at(
            concat(list),
            at,
            "RUN "@ + line,
        );
    assert(step_at(concat(list), at, "RUN "@ + line));
}

proof fn lemma_section_script(
    list: Seq<Seq<char>>,
    k: int,
    from: int,
    to: int,
    download: Download,
)
    requires
        all_closed(list),
        0 <= from <= k < to <= list.len(),
        runs_script(list[k], 0, list[k].len() as int, download),
    ensures
        runs_script(concat(list), start_of(list, from), start_of(list, to), download),
{
    reveal(runs_script);
    lemma_section(list, k);
    lemma_script_inside(concat(list.take(k)), list[k], concat(list.skip(k + 1)), download);
    let (at, command) = choose|at: int, command: Seq<Seq<char>>|
        start_of(list, k) <= at < start_of(list, k + 1) && #[trigger] runs_at(
            concat(list),
            at,
            command,
        ) && fetches(command, download);
    assert(runs_at(concat(list), at, command));
}

/// Between two positions the file has the line.
#[verifier::opaque]
pub open spec fn has_step(file: Seq<char>, from: int, to: int, line: Seq<char>) -> bool {
    exists|at: int| from <= at < to && #[trigger] step_at(file, at, line)
}

proof fn lemma_section_step(list: Seq<Seq<char>>, k: int, from: int, to: int, line: Seq<char>)
    requires
        all_closed(list),
        0 <= from <= k < to <= list.len(),
        has_step(list[k], 0, list[k].len() as int, line),
    ensures
        has_step(concat(list), start_of(list, from), start_of(list, to), line),
{
    reveal(has_step);
    lemma_section(list, k);
    let at = choose|at: int| 0 <= at < list[k].len() && #[trigger] step_at(list[k], at, line);
    lemma_step_inside(concat(list.take(k)), list[k], concat(list.skip(k + 1)), at, line);
    assert(step_at(concat(list), start_of(list, k) + at, line));
}

/// Between two positions the file installs all that a toolchain lists: its
/// variables, packages, commands and tools.
#[verifier::opaque]
pub open spec fn toolchain_in(file: Seq<char>, from: int, to: int, def: ToolchainDef) -> bool {
    &&& def.env@.len() > 0 ==> has_step(
        file,
        from,
        to,
        "ENV "@ + joined(assigned(text_pairs(def.env@)), " "@),
    )
    &&& def.install@.len() > 0 ==> runs_within(file, from, to, apt_command(texts(def.install@)))
    &&& lines_run(file, from, to, texts(def.run@))
    &&& forall|tool: Seq<char>| #[trigger]
        texts(def.mise@).contains(tool) ==> has_tool(file, from, to, tool)
    &&& lines_run(file, from, to, texts(def.extra@))
    &&& def.cargo@.len() > 0 ==> runs_within(file, from, to, cargo_command(texts(def.cargo@)))
    &&& def.npm@.len() > 0 ==> runs_within(file, from, to, npm_command(texts(def.npm@)))
    &&& def.bun@.len() > 0 ==> runs_within(
        file,
        from,
        to,
        npm_command(seq!["bun"@, "&&"@]) + bun_command(texts(def.bun@)),
    )
    &&& uv_in(file, from, to, def.uv@)
    &&& scripts_in(file, from, to, def.downloads@)
}

/// Every tool is installed with uv, and what is to run behind it runs.
pub open spec fn uv_in(file: Seq<char>, from: int, to: int, tools: Seq<UvTool>) -> bool {
    forall|i: int|
        0 <= i < tools.len() ==> runs_within(file, from, to, uv_command(#[trigger] tools[i])) && (
        tools[i].run is Some ==> runs_line(file, from, to, tools[i].run->Some_0@))
}

/// Every script is fetched and run, as long as its variables have plain names.
pub open spec fn scripts_in(file: Seq<char>, from: int, to: int, list: Seq<Download>) -> bool {
    (forall|i: int| 0 <= i < list.len() ==> plain_names(text_pairs((#[trigger] list[i]).env@)))
        ==> forall|i: int|
        0 <= i < list.len() ==> runs_script(file, from, to, #[trigger] list[i])
}

#[verifier::opaque]
spec fn block_sections(def: ToolchainDef) -> Seq<Seq<char>> {
    seq![
        if def.env@.len() == 0 {
            Seq::empty()
        } else {
            "ENV "@ + joined(crate::image::assignments(text_pairs(def.env@), false), " "@)
                + "\n"@
        },
        option_text(packages_text(texts(def.install@))),
        runs_text(texts(def.run@)),
        option_text(crate::image::mise_text(texts(def.mise@))),
        runs_text(texts(def.extra@)),
        option_text(
            install_text("cargo install --root /usr/local"@, ""@, texts(def.cargo@)),
        ),
        option_text(install_text("npm install --global"@, ""@, texts(def.npm@))),
        option_text(
            install_text(
                "npm install --global bun && bun install --global"@,
                ""@,
                texts(def.bun@),
            ),
        ),
        uv_tools_text(def.uv@),
        downloads_text(def.downloads@),
    ]
}

proof fn lemma_block_text(def: ToolchainDef)
    ensures
        concat(block_sections(def)) == def.block_text(true),
{
    reveal(block_sections);
    let all = block_sections(def);
    let none = Seq::<Seq<char>>::empty();
    let s1 = none.push(all[0]);
    let s2 = s1.push(all[1]);
    let s3 = s2.push(all[2]);
    let s4 = s3.push(all[3]);
    let s5 = s4.push(all[4]);
    let s6 = s5.push(all[5]);
    let s7 = s6.push(all[6]);
    let s8 = s7.push(all[7]);
    let s9 = s8.push(all[8]);
    let s10 = s9.push(all[9]);
    lemma_concat_push(none, all[0]);
    lemma_concat_push(s1, all[1]);
    lemma_concat_push(s2, all[2]);
    lemma_concat_push(s3, all[3]);
    lemma_concat_push(s4, all[4]);
    lemma_concat_push(s5, all[5]);
    lemma_concat_push(s6, all[6]);
    lemma_concat_push(s7, all[7]);
    lemma_concat_push(s8, all[8]);
    lemma_concat_push(s9, all[9]);
    assert(all =~= s10);
    assert(concat(s1) =~= all[0]);
}

proof fn lemma_installs_closed(prefix: Seq<char>, suffix: Seq<char>, items: Seq<Seq<char>>)
    ensures
        is_closed(option_text(install_text(prefix, suffix, items))),
{
    reveal_strlit("\n");
}

proof fn lemma_mise_closed(items: Seq<Seq<char>>)
    ensures
        is_closed(option_text(crate::image::mise_text(items))),
{
    reveal_strlit("\n");
}

proof fn lemma_block_closed(def: ToolchainDef)
    ensures
        all_closed(block_sections(def)),
        is_closed(def.block_text(true)),
{
    reveal(block_sections);
    reveal_strlit("\n");
    let all = block_sections(def);
    lemma_runs(texts(def.run@));
    lemma_runs(texts(def.extra@));
    lemma_uv_tools(def.uv@);
    lemma_downloads_closed(def.downloads@);
    lemma_installs_closed(
        "apt-get update && apt-get install -y --no-install-recommends"@,
        " && rm -rf /var/lib/apt/lists/*"@,
        texts(def.install@),
    );
    lemma_installs_closed("cargo install --root /usr/local"@, ""@, texts(def.cargo@));
    lemma_installs_closed("npm install --global"@, ""@, texts(def.npm@));
    lemma_installs_closed(
        "npm install --global bun && bun install --global"@,
        ""@,
        texts(def.bun@),
    );
    lemma_mise_closed(texts(def.mise@));
    assert forall|i: int| 0 <= i < all.len() implies is_closed(#[trigger] all[i]) by {
        assert(i == 0 || i == 1 || i == 2 || i == 3 || i == 4 || i == 5 || i == 6 || i == 7 || i
            == 8 || i == 9);
    }
    lemma_concat_closed(all);
    lemma_block_text(def);
}

proof fn lemma_env_step(def: ToolchainDef)
    requires
        def.env@.len() > 0,
    ensures
        has_step(
            block_sections(def)[0],
            0,
            block_sections(def)[0].len() as int,
            "ENV "@ + joined(assigned(text_pairs(def.env@)), " "@),
        ),
{
    reveal(has_step);
    reveal(block_sections);
    reveal_strlit("\n");
    let env = text_pairs(def.env@);
    assert(crate::image::assignments(env, false) =~= assigned(env));
    let line = "ENV "@ + joined(assigned(env), " "@);
    lemma_whole_step(line);
    assert(block_sections(def)[0] =~= line.push('\n'));
    assert(step_at(block_sections(def)[0], 0, line));
}

proof fn lemma_list_has_tools(list: Seq<Seq<char>>, k: int, from: int, to: int, items: Seq<Seq<char>>)
    requires
        all_closed(list),
        0 <= from <= k < to <= list.len(),
        list[k] == option_text(crate::image::mise_text(items)),
    ensures
        forall|tool: Seq<char>| #[trigger]
            items.contains(tool) ==> has_tool(
                concat(list),
                start_of(list, from),
                start_of(list, to),
                tool,
            ),
{
    assert forall|tool: Seq<char>| #[trigger] items.contains(tool) implies has_tool(
        concat(list),
        start_of(list, from),
        start_of(list, to),
        tool,
    ) by {
        lemma_mise(items);
        lemma_section_tool(list, k, from, to, tool);
    }
}

proof fn lemma_list_lines(list: Seq<Seq<char>>, k: int, from: int, to: int, lines: Seq<Seq<char>>)
    requires
        all_closed(list),
        0 <= from <= k < to <= list.len(),
        list[k] == runs_text(lines),
    ensures
        lines_run(concat(list), start_of(list, from), start_of(list, to), lines),
{
    lemma_runs(lines);
    assert forall|i: int| 0 <= i < lines.len() implies runs_line(
        concat(list),
        start_of(list, from),
        start_of(list, to),
        #[trigger] lines[i],
    ) by {
        lemma_section_line(list, k, from, to, lines[i]);
    }
}

proof fn lemma_list_uv(list: Seq<Seq<char>>, k: int, from: int, to: int, tools: Seq<UvTool>)
    requires
        all_closed(list),
        0 <= from <= k < to <= list.len(),
        list[k] == uv_tools_text(tools),
    ensures
        uv_in(concat(list), start_of(list, from), start_of(list, to), tools),
{
    lemma_uv_tools(tools);
    assert forall|i: int| 0 <= i < tools.len() implies runs_within(
        concat(list),
        start_of(list, from),
        start_of(list, to),
        uv_command(#[trigger] tools[i]),
    ) && (tools[i].run is Some ==> runs_line(
        concat(list),
        start_of(list, from),
        start_of(list, to),
        tools[i].run->Some_0@,
    )) by {
        lemma_section_runs(list, k, from, to, uv_command(tools[i]));
        if tools[i].run is Some {
            lemma_section_line(list, k, from, to, tools[i].run->Some_0@);
        }
    }
}

proof fn lemma_list_scripts(list: Seq<Seq<char>>, k: int, from: int, to: int, scripts: Seq<Download>)
    requires
        all_closed(list),
        0 <= from <= k < to <= list.len(),
        list[k] == downloads_text(scripts),
    ensures
        scripts_in(concat(list), start_of(list, from), start_of(list, to), scripts),
{
    if forall|i: int|
        0 <= i < scripts.len() ==> plain_names(text_pairs((#[trigger] scripts[i]).env@)) {
        lemma_downloads(scripts);
        assert forall|i: int| 0 <= i < scripts.len() implies runs_script(
            concat(list),
            start_of(list, from),
            start_of(list, to),
            #[trigger] scripts[i],
        ) by {
            lemma_section_script(list, k, from, to, scripts[i]);
        }
    }
}

proof fn lemma_list_install(
    list: Seq<Seq<char>>,
    k: int,
    from: int,
    to: int,
    prefix: Seq<char>,
    first: Seq<Seq<char>>,
    items: Seq<Seq<char>>,
)
    requires
        all_closed(list),
        0 <= from <= k < to <= list.len(),
        is_bare(prefix),
        shell_words(prefix) == Some(first),
        items.len() > 0,
        list[k] == option_text(install_text(prefix, ""@, items)),
    ensures
        runs_within(concat(list), start_of(list, from), start_of(list, to), first + items),
{
    lemma_plain_install(prefix, first, items);
    lemma_section_runs(list, k, from, to, first + items);
}

proof fn lemma_list_apt(list: Seq<Seq<char>>, k: int, from: int, to: int, items: Seq<Seq<char>>)
    requires
        all_closed(list),
        0 <= from <= k < to <= list.len(),
        items.len() > 0,
        list[k] == option_text(packages_text(items)),
    ensures
        runs_within(concat(list), start_of(list, from), start_of(list, to), apt_command(items)),
{
    lemma_apt(items);
    lemma_section_runs(list, k, from, to, apt_command(items));
}

/// The block of a toolchain installs all that the toolchain lists.
#[verifier::rlimit(60)]
proof fn lemma_block(def: ToolchainDef)
    ensures
        toolchain_in(def.block_text(true), 0, def.block_text(true).len() as int, def),
{
    reveal(block_sections);
    reveal(toolchain_in);
    let all = block_sections(def);
    lemma_block_closed(def);
    lemma_block_text(def);
    lemma_installers();
    assert(all.take(0) =~= Seq::empty());
    assert(all.take(10) =~= all);
    assert(start_of(all, 0) == 0);
    assert(start_of(all, 10) == def.block_text(true).len());
    if def.env@.len() > 0 {
        lemma_env_step(def);
        lemma_section_step(
            all,
            0,
            0,
            10,
            "ENV "@ + joined(assigned(text_pairs(def.env@)), " "@),
        );
    }
    if def.install@.len() > 0 {
        lemma_list_apt(all, 1, 0, 10, texts(def.install@));
    }
    lemma_list_lines(all, 2, 0, 10, texts(def.run@));
    lemma_list_has_tools(all, 3, 0, 10, texts(def.mise@));
    lemma_list_lines(all, 4, 0, 10, texts(def.extra@));
    if def.cargo@.len() > 0 {
        lemma_list_install(
            all,
            5,
            0,
            10,
            "cargo install --root /usr/local"@,
            seq!["cargo"@, "install"@, "--root"@, "/usr/local"@],
            texts(def.cargo@),
        );
    }
    if def.npm@.len() > 0 {
        lemma_list_install(
            all,
            6,
            0,
            10,
            "npm install --global"@,
            seq!["npm"@, "install"@, "--global"@],
            texts(def.npm@),
        );
    }
    if def.bun@.len() > 0 {
        let first = seq![
            "npm"@,
            "install"@,
            "--global"@,
            "bun"@,
            "&&"@,
            "bun"@,
            "install"@,
            "--global"@,
        ];
        lemma_list_install(
            all,
            7,
            0,
            10,
            "npm install --global bun && bun install --global"@,
            first,
            texts(def.bun@),
        );
        assert(first + texts(def.bun@) =~= npm_command(seq!["bun"@, "&&"@]) + bun_command(
            texts(def.bun@),
        ));
    }
    lemma_list_uv(all, 8, 0, 10, def.uv@);
    lemma_list_scripts(all, 9, 0, 10, def.downloads@);
}

/// What a section installs, the whole installs.
#[verifier::rlimit(60)]
proof fn lemma_section_toolchain(
    list: Seq<Seq<char>>,
    k: int,
    from: int,
    to: int,
    def: ToolchainDef,
)
    requires
        all_closed(list),
        0 <= from <= k < to <= list.len(),
        toolchain_in(list[k], 0, list[k].len() as int, def),
    ensures
        toolchain_in(concat(list), start_of(list, from), start_of(list, to), def),
{
    reveal(toolchain_in);
    let file = concat(list);
    let a = start_of(list, from);
    let b = start_of(list, to);
    if def.env@.len() > 0 {
        lemma_section_step(
            list,
            k,
            from,
            to,
            "ENV "@ + joined(assigned(text_pairs(def.env@)), " "@),
        );
    }
    if def.install@.len() > 0 {
        lemma_section_runs(list, k, from, to, apt_command(texts(def.install@)));
    }
    if def.cargo@.len() > 0 {
        lemma_section_runs(list, k, from, to, cargo_command(texts(def.cargo@)));
    }
    if def.npm@.len() > 0 {
        lemma_section_runs(list, k, from, to, npm_command(texts(def.npm@)));
    }
    if def.bun@.len() > 0 {
        lemma_section_runs(
            list,
            k,
            from,
            to,
            npm_command(seq!["bun"@, "&&"@]) + bun_command(texts(def.bun@)),
        );
    }
    assert(lines_run(file, a, b, texts(def.run@))) by {
        let lines = texts(def.run@);
        assert forall|i: int| 0 <= i < lines.len() implies runs_line(
            file,
            a,
            b,
            #[trigger] lines[i],
        ) by {
            lemma_section_line(list, k, from, to, lines[i]);
        }
    }
    assert(lines_run(file, a, b, texts(def.extra@))) by {
        let lines = texts(def.extra@);
        assert forall|i: int| 0 <= i < lines.len() implies runs_line(
            file,
            a,
            b,
            #[trigger] lines[i],
        ) by {
            lemma_section_line(list, k, from, to, lines[i]);
        }
    }
    assert forall|tool: Seq<char>| #[trigger] texts(def.mise@).contains(tool) implies has_tool(
        file,
        a,
        b,
        tool,
    ) by {
        lemma_section_tool(list, k, from, to, tool);
    }
    assert(uv_in(file, a, b, def.uv@)) by {
        assert forall|i: int| 0 <= i < def.uv@.len() implies runs_within(
            file,
            a,
            b,
            uv_command(#[trigger] def.uv@[i]),
        ) && (def.uv@[i].run is Some ==> runs_line(file, a, b, def.uv@[i].run->Some_0@)) by {
            lemma_section_runs(list, k, from, to, uv_command(def.uv@[i]));
            if def.uv@[i].run is Some {
                lemma_section_line(list, k, from, to, def.uv@[i].run->Some_0@);
            }
        }
    }
    assert(scripts_in(file, a, b, def.downloads@)) by {
        let scripts = def.downloads@;
        if forall|i: int|
            0 <= i < scripts.len() ==> plain_names(text_pairs((#[trigger] scripts[i]).env@)) {
            assert forall|i: int| 0 <= i < scripts.len() implies runs_script(
                file,
                a,
                b,
                #[trigger] scripts[i],
            ) by {
                lemma_section_script(list, k, from, to, scripts[i]);
            }
        }
    }
}

spec fn blocks_of(config: Config, wanted: Seq<Seq<char>>) -> Seq<Seq<char>> {
    Seq::new(wanted.len(), |i: int| config.def_of(wanted[i])->Some_0.block_text(true))
}

proof fn lemma_blocks_text(config: Config, wanted: Seq<Seq<char>>)
    ensures
        config.blocks_text(wanted) == concat(blocks_of(config, wanted)),
        all_closed(blocks_of(config, wanted)),
    decreases wanted.len(),
{
    let all = blocks_of(config, wanted);
    assert forall|i: int| 0 <= i < all.len() implies is_closed(#[trigger] all[i]) by {
        lemma_block_closed(config.def_of(wanted[i])->Some_0);
    }
    if wanted.len() > 0 {
        lemma_blocks_text(config, wanted.drop_last());
        assert(all.drop_last() =~= blocks_of(config, wanted.drop_last()));
    }
}

#[verifier::opaque]
spec fn base_sections(config: Config, uid: nat, gid: nat) -> Seq<Seq<char>> {
    seq![
        "FROM "@ + config.base_image@ + "\nWORKDIR "@ + config.workspace@ + "\n"@,
        crate::image::preamble_text(uid, gid),
        config.harness.install_text(),
        option_text(packages_text(texts(config.install@))),
    ]
}

#[verifier::opaque]
spec fn tool_sections(config: Config, wanted: Seq<Seq<char>>) -> Seq<Seq<char>> {
    seq![
        if config.mise_tools(wanted).len() > 0 || config.some_def_uses_mise(wanted) {
            "ENV MISE_DATA_DIR=/usr/local/share/mise PATH=/usr/local/share/mise/shims:$PATH\n"@
        } else {
            Seq::empty()
        },
        if config.uv@.len() > 0 || config.some_def_uses_uv(wanted) {
            "ENV UV_TOOL_BIN_DIR=/usr/local/bin\n"@
        } else {
            Seq::empty()
        },
        config.blocks_text(wanted),
        option_text(crate::image::mise_text(config.mise_tools(wanted))),
        option_text(
            install_text("cargo install --root /usr/local"@, ""@, texts(config.cargo@)),
        ),
        option_text(install_text("npm install --global"@, ""@, texts(config.npm@))),
        option_text(install_text("bun install --global"@, ""@, texts(config.bun@))),
        uv_tools_text(config.uv@),
        downloads_text(config.downloads@),
    ]
}

#[verifier::opaque]
spec fn end_sections(config: Config, uid: nat, gid: nat) -> Seq<Seq<char>> {
    seq![
        crate::image::epilogue_text(uid, gid),
        "RUN chmod -R a+rwX /tmp\n"@,
        crate::image::sealing_text(),
        "CMD "@ + crate::image::json_command_text(config.harness.command_texts()) + "\n"@,
    ]
}

#[verifier::opaque]
spec fn image_sections(config: Config, wanted: Seq<Seq<char>>, uid: nat, gid: nat) -> Seq<
    Seq<char>,
> {
    base_sections(config, uid, gid) + seq![crate::image::sound_text(config.audio)]
        + tool_sections(config, wanted) + end_sections(config, uid, gid)
}

proof fn lemma_concat_four(
    a: Seq<char>,
    b: Seq<char>,
    c: Seq<char>,
    d: Seq<char>,
)
    ensures
        concat(seq![a, b, c, d]) == a + b + c + d,
{
    let s0 = Seq::<Seq<char>>::empty();
    let s1 = s0.push(a);
    lemma_concat_push(s0, a);
    let s2 = s1.push(b);
    lemma_concat_push(s1, b);
    let s3 = s2.push(c);
    lemma_concat_push(s2, c);
    let s4 = s3.push(d);
    lemma_concat_push(s3, d);
    assert(concat(s1) =~= a);
    assert(seq![a, b, c, d] =~= s4);
}

proof fn lemma_concat_nine(
    a: Seq<char>,
    b: Seq<char>,
    c: Seq<char>,
    d: Seq<char>,
    e: Seq<char>,
    f: Seq<char>,
    g: Seq<char>,
    h: Seq<char>,
    i: Seq<char>,
)
    ensures
        concat(seq![a, b, c, d, e, f, g, h, i]) == a + b + c + d + e + f + g + h + i,
{
    let s0 = Seq::<Seq<char>>::empty();
    let s1 = s0.push(a);
    lemma_concat_push(s0, a);
    let s2 = s1.push(b);
    lemma_concat_push(s1, b);
    let s3 = s2.push(c);
    lemma_concat_push(s2, c);
    let s4 = s3.push(d);
    lemma_concat_push(s3, d);
    let s5 = s4.push(e);
    lemma_concat_push(s4, e);
    let s6 = s5.push(f);
    lemma_concat_push(s5, f);
    let s7 = s6.push(g);
    lemma_concat_push(s6, g);
    let s8 = s7.push(h);
    lemma_concat_push(s7, h);
    let s9 = s8.push(i);
    lemma_concat_push(s8, i);
    assert(concat(s1) =~= a);
    assert(seq![a, b, c, d, e, f, g, h, i] =~= s9);
}

proof fn lemma_base_sections(config: Config, uid: nat, gid: nat)
    ensures
        concat(base_sections(config, uid, gid)) == config.base_text(uid, gid),
        all_closed(base_sections(config, uid, gid)),
{
    reveal(base_sections);
    reveal_strlit("\n");
    reveal_strlit("RUN npm install --global opencode-ai\n");
    reveal_strlit("-code\n");
    let all = base_sections(config, uid, gid);
    lemma_concat_four(all[0], all[1], all[2], all[3]);
    lemma_installs_closed(
        "apt-get update && apt-get install -y --no-install-recommends"@,
        " && rm -rf /var/lib/apt/lists/*"@,
        texts(config.install@),
    );
}

proof fn lemma_tool_text(config: Config, wanted: Seq<Seq<char>>)
    ensures
        concat(tool_sections(config, wanted)) == config.tools_text(wanted),
{
    reveal(tool_sections);
    let all = tool_sections(config, wanted);
    lemma_concat_nine(
        all[0],
        all[1],
        all[2],
        all[3],
        all[4],
        all[5],
        all[6],
        all[7],
        all[8],
    );
}

proof fn lemma_env_closed()
    ensures
        is_closed(
            "ENV MISE_DATA_DIR=/usr/local/share/mise PATH=/usr/local/share/mise/shims:$PATH\n"@,
        ),
        is_closed("ENV UV_TOOL_BIN_DIR=/usr/local/bin\n"@),
        is_closed(Seq::<char>::empty()),
{
    reveal_strlit(
        "ENV MISE_DATA_DIR=/usr/local/share/mise PATH=/usr/local/share/mise/shims:$PATH\n",
    );
    reveal_strlit("ENV UV_TOOL_BIN_DIR=/usr/local/bin\n");
}

proof fn lemma_nine_closed(list: Seq<Seq<char>>)
    requires
        list.len() == 9,
        is_closed(list[0]),
        is_closed(list[1]),
        is_closed(list[2]),
        is_closed(list[3]),
        is_closed(list[4]),
        is_closed(list[5]),
        is_closed(list[6]),
        is_closed(list[7]),
        is_closed(list[8]),
    ensures
        all_closed(list),
{
}

proof fn lemma_tool_closed(config: Config, wanted: Seq<Seq<char>>)
    ensures
        all_closed(tool_sections(config, wanted)),
{
    reveal(tool_sections);
    let all = tool_sections(config, wanted);
    lemma_env_closed();
    lemma_blocks_text(config, wanted);
    lemma_concat_closed(blocks_of(config, wanted));
    lemma_mise_closed(config.mise_tools(wanted));
    lemma_installs_closed("cargo install --root /usr/local"@, ""@, texts(config.cargo@));
    lemma_installs_closed("npm install --global"@, ""@, texts(config.npm@));
    lemma_installs_closed("bun install --global"@, ""@, texts(config.bun@));
    lemma_uv_tools(config.uv@);
    lemma_downloads_closed(config.downloads@);
    lemma_nine_closed(all);
}

proof fn lemma_end_sections(config: Config, uid: nat, gid: nat)
    ensures
        concat(end_sections(config, uid, gid)) == crate::image::epilogue_text(uid, gid)
            + "RUN chmod -R a+rwX /tmp\n"@ + crate::image::sealing_text() + ("CMD "@
            + crate::image::json_command_text(config.harness.command_texts()) + "\n"@),
        all_closed(end_sections(config, uid, gid)),
{
    reveal(end_sections);
    reveal_strlit("\n");
    reveal_strlit("RUN chmod -R a+rwX /tmp\n");
    reveal_strlit("RUN find /usr /etc -xdev -type d -exec chmod a-w {} +\n");
    let all = end_sections(config, uid, gid);
    lemma_concat_four(all[0], all[1], all[2], all[3]);
}

proof fn lemma_closed_add(first: Seq<Seq<char>>, second: Seq<Seq<char>>)
    requires
        all_closed(first),
        all_closed(second),
    ensures
        all_closed(first + second),
{
    let all = first + second;
    assert forall|i: int| 0 <= i < all.len() implies is_closed(#[trigger] all[i]) by {
        if i < first.len() {
            assert(is_closed(first[i]));
        } else {
            assert(is_closed(second[i - first.len()]));
        }
    }
}

proof fn lemma_image_sections(config: Config, wanted: Seq<Seq<char>>, uid: nat, gid: nat)
    ensures
        concat(image_sections(config, wanted, uid, gid)) == config.image_text(wanted, uid, gid),
        all_closed(image_sections(config, wanted, uid, gid)),
{
    reveal(image_sections);
    let base = base_sections(config, uid, gid);
    let sound = crate::image::sound_text(config.audio);
    let tools = tool_sections(config, wanted);
    let last = end_sections(config, uid, gid);
    lemma_base_sections(config, uid, gid);
    lemma_tool_text(config, wanted);
    lemma_tool_closed(config, wanted);
    lemma_end_sections(config, uid, gid);
    lemma_installs_closed(
        "apt-get update && apt-get install -y --no-install-recommends"@,
        " && rm -rf /var/lib/apt/lists/*"@,
        crate::image::sound_packages(),
    );
    let none = Seq::<Seq<char>>::empty();
    lemma_concat_push(none, sound);
    assert(none.push(sound) =~= seq![sound]);
    assert(concat(seq![sound]) =~= sound);
    lemma_concat_add(base, seq![sound]);
    lemma_concat_add(base + seq![sound], tools);
    lemma_concat_add(base + seq![sound] + tools, last);
    lemma_closed_add(base, seq![sound]);
    lemma_closed_add(base + seq![sound], tools);
    lemma_closed_add(base + seq![sound] + tools, last);
    lemma_last_regrouped(
        config.base_text(uid, gid) + sound + config.tools_text(wanted),
        crate::image::epilogue_text(uid, gid),
        "RUN chmod -R a+rwX /tmp\n"@,
        crate::image::sealing_text(),
        crate::image::json_command_text(config.harness.command_texts()),
    );
}

proof fn lemma_last_regrouped(
    file: Seq<char>,
    a: Seq<char>,
    b: Seq<char>,
    c: Seq<char>,
    words: Seq<char>,
)
    ensures
        file + (a + b + c + ("CMD "@ + words + "\n"@)) == file + a + b + c + "CMD "@ + words
            + "\n"@,
{
    assert(file + (a + b + c + ("CMD "@ + words + "\n"@)) =~= file + a + b + c + "CMD "@ + words
        + "\n"@);
}

proof fn lemma_bounds(list: Seq<Seq<char>>, a: int, b: int)
    requires
        0 <= a <= b <= list.len(),
    ensures
        0 <= start_of(list, a) <= start_of(list, b) <= concat(list).len(),
        start_of(list, 0) == 0,
        start_of(list, list.len() as int) == concat(list).len(),
{
    lemma_concat_add(list.take(a), list.subrange(a, b));
    assert(list.take(a) + list.subrange(a, b) =~= list.take(b));
    lemma_concat_add(list.take(b), list.skip(b));
    assert(list.take(b) + list.skip(b) =~= list);
    assert(list.take(0) =~= Seq::empty());
    assert(list.take(list.len() as int) =~= list);
}

/// `all` are the sections of an image.
#[verifier::opaque]
spec fn is_layout(
    all: Seq<Seq<char>>,
    config: Config,
    wanted: Seq<Seq<char>>,
    uid: nat,
    gid: nat,
) -> bool {
    let base = base_sections(config, uid, gid);
    let tools = tool_sections(config, wanted);
    let last = end_sections(config, uid, gid);
    &&& all_closed(all)
    &&& all.len() == 18
    &&& all[0] == base[0] && all[1] == base[1] && all[2] == base[2] && all[3] == base[3]
    &&& all[4] == crate::image::sound_text(config.audio)
    &&& all[5] == tools[0] && all[6] == tools[1] && all[7] == tools[2]
    &&& all[8] == tools[3] && all[9] == tools[4] && all[10] == tools[5]
    &&& all[11] == tools[6] && all[12] == tools[7] && all[13] == tools[8]
    &&& all[14] == last[0] && all[15] == last[1] && all[16] == last[2]
    &&& all[17] == last[3]
}

proof fn lemma_joined_parts(
    base: Seq<Seq<char>>,
    sound: Seq<char>,
    tools: Seq<Seq<char>>,
    last: Seq<Seq<char>>,
)
    requires
        base.len() == 4,
        tools.len() == 9,
        last.len() == 4,
    ensures
        ({
            let all = base + seq![sound] + tools + last;
            &&& all.len() == 18
            &&& forall|i: int| 0 <= i < 4 ==> all[i] == #[trigger] base[i]
            &&& all[4] == sound
            &&& forall|i: int| 0 <= i < 9 ==> all[5 + i] == #[trigger] tools[i]
            &&& forall|i: int| 0 <= i < 4 ==> all[14 + i] == #[trigger] last[i]
        }),
{
}

proof fn lemma_image_layout(config: Config, wanted: Seq<Seq<char>>, uid: nat, gid: nat)
    ensures
        is_layout(image_sections(config, wanted, uid, gid), config, wanted, uid, gid),
        concat(image_sections(config, wanted, uid, gid)) == config.image_text(wanted, uid, gid),
{
    lemma_image_sections(config, wanted, uid, gid);
    lemma_layout_holds(config, wanted, uid, gid);
}

proof fn lemma_part_sizes(config: Config, wanted: Seq<Seq<char>>, uid: nat, gid: nat)
    ensures
        base_sections(config, uid, gid).len() == 4,
        tool_sections(config, wanted).len() == 9,
        end_sections(config, uid, gid).len() == 4,
{
    reveal(base_sections);
    reveal(tool_sections);
    reveal(end_sections);
}

proof fn lemma_layout_holds(config: Config, wanted: Seq<Seq<char>>, uid: nat, gid: nat)
    requires
        all_closed(image_sections(config, wanted, uid, gid)),
    ensures
        is_layout(image_sections(config, wanted, uid, gid), config, wanted, uid, gid),
{
    reveal(is_layout);
    reveal(image_sections);
    lemma_part_sizes(config, wanted, uid, gid);
    lemma_joined_parts(
        base_sections(config, uid, gid),
        crate::image::sound_text(config.audio),
        tool_sections(config, wanted),
        end_sections(config, uid, gid),
    );
}

proof fn lemma_not_covered_stays(
    tools: Seq<Seq<char>>,
    covered: spec_fn(Seq<char>) -> bool,
    tool: Seq<char>,
)
    requires
        tools.contains(tool),
        !covered(tool),
    ensures
        crate::image::not_covered(tools, covered).contains(tool),
    decreases tools.len(),
{
    let front = tools.drop_last();
    let before = crate::image::not_covered(front, covered);
    let after = crate::image::not_covered(tools, covered);
    if tools.last() == tool {
        assert(after[before.len() as int] == tool);
    } else {
        let i = choose|i: int| 0 <= i < tools.len() && tools[i] == tool;
        assert(front[i] == tool);
        lemma_not_covered_stays(front, covered, tool);
        let j = choose|j: int| 0 <= j < before.len() && before[j] == tool;
        assert(after[j] == tool);
    }
}

/// A line of its own is a section of its own.
proof fn lemma_line_section(section: Seq<char>, line: Seq<char>)
    requires
        section == line.push('\n'),
    ensures
        has_step(section, 0, section.len() as int, line),
{
    reveal(has_step);
    lemma_whole_step(line);
    assert(step_at(section, 0, line));
}

proof fn lemma_image_toolchain(
    all: Seq<Seq<char>>,
    config: Config,
    wanted: Seq<Seq<char>>,
    uid: nat,
    gid: nat,
    i: int,
)
    requires
        is_layout(all, config, wanted, uid, gid),
        0 <= i < wanted.len(),
    ensures
        toolchain_in(concat(all), 0, start_of(all, 9), config.def_of(wanted[i])->Some_0),
{
    let blocks = blocks_of(config, wanted);
    let def = config.def_of(wanted[i])->Some_0;
    assert(all_closed(all) && all.len() == 18 && all[7] == config.blocks_text(wanted)) by {
        reveal(is_layout);
        reveal(tool_sections);
    }
    lemma_blocks_text(config, wanted);
    lemma_block(def);
    assert(blocks[i] == def.block_text(true));
    lemma_section_toolchain(blocks, i, 0, blocks.len() as int, def);
    lemma_bounds(blocks, 0, 0);
    lemma_bounds(all, 0, 9);
    lemma_section_toolchain(all, 7, 0, 9, def);
}

/// A tool that the configuration needs is installed before the package lists
/// are, by the configuration or by one of its toolchains.
proof fn lemma_image_tool(
    all: Seq<Seq<char>>,
    config: Config,
    wanted: Seq<Seq<char>>,
    uid: nat,
    gid: nat,
    tool: Seq<char>,
)
    requires
        is_layout(all, config, wanted, uid, gid),
        texts(config.mise@).contains(tool) || config.providers().contains(tool),
    ensures
        has_tool(concat(all), 0, start_of(all, 9), tool),
        config.mise_tools(wanted).len() > 0 || config.some_def_uses_mise(wanted),
{
    let own = config.mise_tools(wanted);
    let rest = crate::image::not_covered(config.providers(), config.covered(wanted));
    assert(all_closed(all) && all.len() == 18 && all[8] == option_text(
        crate::image::mise_text(own),
    )) by {
        reveal(is_layout);
        reveal(tool_sections);
    }
    lemma_bounds(all, 0, 9);
    if texts(config.mise@).contains(tool) || !(config.covered(wanted))(tool) {
        if texts(config.mise@).contains(tool) {
            let i = choose|i: int| 0 <= i < texts(config.mise@).len() && texts(config.mise@)[i]
                == tool;
            assert(own[i] == tool);
        } else {
            lemma_not_covered_stays(config.providers(), config.covered(wanted), tool);
            let i = choose|i: int| 0 <= i < rest.len() && rest[i] == tool;
            assert(own[texts(config.mise@).len() + i] == tool);
        }
        assert(own.contains(tool));
        lemma_list_has_tools(all, 8, 0, 9, own);
    } else {
        let i = choose|i: int|
            0 <= i < wanted.len() && texts(
                config.def_of(#[trigger] wanted[i])->Some_0.mise@,
            ).contains(tool);
        lemma_image_toolchain(all, config, wanted, uid, gid, i);
        assert(has_tool(concat(all), 0, start_of(all, 9), tool)) by {
            reveal(toolchain_in);
        }
        assert(config.def_of(wanted[i])->Some_0.mise@.len() > 0);
    }
}

/// The tools that the package lists of a configuration need.
pub open spec fn needed_tool(config: Config, tool: Seq<char>) -> bool {
    ||| texts(config.mise@).contains(tool)
    ||| config.cargo@.len() > 0 && tool == "rust"@
    ||| config.npm@.len() > 0 && tool == "node"@
    ||| config.bun@.len() > 0 && tool == "bun"@
    ||| config.uv@.len() > 0 && (tool == "python"@ || tool == "uv"@)
}

proof fn lemma_needed_is_provided(config: Config, tool: Seq<char>)
    requires
        needed_tool(config, tool),
    ensures
        texts(config.mise@).contains(tool) || config.providers().contains(tool),
{
    if !texts(config.mise@).contains(tool) {
        let none = Seq::<Seq<char>>::empty();
        let a: Seq<Seq<char>> = if config.cargo@.len() > 0 {
            seq!["rust"@]
        } else {
            none
        };
        let b: Seq<Seq<char>> = if config.npm@.len() > 0 {
            seq!["node"@]
        } else {
            none
        };
        let c: Seq<Seq<char>> = if config.bun@.len() > 0 {
            seq!["bun"@]
        } else {
            none
        };
        let d: Seq<Seq<char>> = if config.uv@.len() > 0 {
            seq!["python"@, "uv"@]
        } else {
            none
        };
        let all = a + b + c + d;
        assert(all == config.providers());
        if config.cargo@.len() > 0 && tool == "rust"@ {
            assert(all[0] == tool);
        } else if config.npm@.len() > 0 && tool == "node"@ {
            assert(all[a.len() as int] == tool);
        } else if config.bun@.len() > 0 && tool == "bun"@ {
            assert(all[(a.len() + b.len()) as int] == tool);
        } else if tool == "python"@ {
            assert(all[(a.len() + b.len() + c.len()) as int] == tool);
        } else {
            assert(all[(a.len() + b.len() + c.len() + 1) as int] == tool);
        }
    }
}

/// A part of the file installs every package of the lists, each list with the
/// installer that is meant for it.
pub open spec fn lists_installed(file: Seq<char>, from: int, to: int, config: Config) -> bool {
    &&& config.cargo@.len() > 0 ==> runs_within(
        file,
        from,
        to,
        cargo_command(texts(config.cargo@)),
    )
    &&& config.npm@.len() > 0 ==> runs_within(file, from, to, npm_command(texts(config.npm@)))
    &&& config.bun@.len() > 0 ==> runs_within(file, from, to, bun_command(texts(config.bun@)))
    &&& uv_in(file, from, to, config.uv@)
    &&& scripts_in(file, from, to, config.downloads@)
}

proof fn lemma_image_lists(
    all: Seq<Seq<char>>,
    config: Config,
    wanted: Seq<Seq<char>>,
    uid: nat,
    gid: nat,
)
    requires
        is_layout(all, config, wanted, uid, gid),
    ensures
        lists_installed(concat(all), start_of(all, 9), start_of(all, 14), config),
{
    assert({
        &&& all_closed(all)
        &&& all.len() == 18
        &&& all[9] == option_text(
            install_text("cargo install --root /usr/local"@, ""@, texts(config.cargo@)),
        )
        &&& all[10] == option_text(install_text("npm install --global"@, ""@, texts(config.npm@)))
        &&& all[11] == option_text(install_text("bun install --global"@, ""@, texts(config.bun@)))
        &&& all[12] == uv_tools_text(config.uv@)
        &&& all[13] == downloads_text(config.downloads@)
    }) by {
        reveal(is_layout);
        reveal(tool_sections);
    }
    lemma_installers();
    if config.cargo@.len() > 0 {
        lemma_list_install(
            all,
            9,
            9,
            14,
            "cargo install --root /usr/local"@,
            seq!["cargo"@, "install"@, "--root"@, "/usr/local"@],
            texts(config.cargo@),
        );
    }
    if config.npm@.len() > 0 {
        lemma_list_install(
            all,
            10,
            9,
            14,
            "npm install --global"@,
            seq!["npm"@, "install"@, "--global"@],
            texts(config.npm@),
        );
    }
    if config.bun@.len() > 0 {
        lemma_list_install(
            all,
            11,
            9,
            14,
            "bun install --global"@,
            seq!["bun"@, "install"@, "--global"@],
            texts(config.bun@),
        );
    }
    lemma_list_uv(all, 12, 9, 14, config.uv@);
    lemma_list_scripts(all, 13, 9, 14, config.downloads@);
}

/// A part of the file installs the packages of the configuration, its tools and
/// its toolchains.
pub open spec fn ground_laid(
    file: Seq<char>,
    to: int,
    config: Config,
    wanted: Seq<Seq<char>>,
) -> bool {
    &&& config.install@.len() > 0 ==> runs_within(
        file,
        0,
        to,
        apt_command(texts(config.install@)),
    )
    &&& config.audio ==> runs_within(file, 0, to, apt_command(seq!["libasound2"@, "libpulse0"@]))
    &&& forall|tool: Seq<char>| #[trigger]
        needed_tool(config, tool) ==> has_tool(file, 0, to, tool) && has_step(
            file,
            0,
            to,
            "ENV MISE_DATA_DIR=/usr/local/share/mise PATH=/usr/local/share/mise/shims:$PATH"@,
        )
    &&& config.uv@.len() > 0 ==> has_step(file, 0, to, "ENV UV_TOOL_BIN_DIR=/usr/local/bin"@)
    &&& forall|i: int|
        0 <= i < wanted.len() ==> toolchain_in(
            file,
            0,
            to,
            config.def_of(#[trigger] wanted[i])->Some_0,
        )
}

proof fn lemma_image_env(
    all: Seq<Seq<char>>,
    config: Config,
    wanted: Seq<Seq<char>>,
    uid: nat,
    gid: nat,
)
    requires
        is_layout(all, config, wanted, uid, gid),
    ensures
        config.mise_tools(wanted).len() > 0 || config.some_def_uses_mise(wanted) ==> has_step(
            concat(all),
            0,
            start_of(all, 9),
            "ENV MISE_DATA_DIR=/usr/local/share/mise PATH=/usr/local/share/mise/shims:$PATH"@,
        ),
        config.uv@.len() > 0 || config.some_def_uses_uv(wanted) ==> has_step(
            concat(all),
            0,
            start_of(all, 9),
            "ENV UV_TOOL_BIN_DIR=/usr/local/bin"@,
        ),
{
    let mise = "ENV MISE_DATA_DIR=/usr/local/share/mise PATH=/usr/local/share/mise/shims:$PATH"@;
    let uv = "ENV UV_TOOL_BIN_DIR=/usr/local/bin"@;
    lemma_env_lines();
    assert({
        &&& all_closed(all)
        &&& all.len() == 18
        &&& config.mise_tools(wanted).len() > 0 || config.some_def_uses_mise(wanted) ==> all[5]
            == mise.push('\n')
        &&& config.uv@.len() > 0 || config.some_def_uses_uv(wanted) ==> all[6] == uv.push('\n')
    }) by {
        reveal(is_layout);
        reveal(tool_sections);
    }
    lemma_bounds(all, 0, 9);
    if config.mise_tools(wanted).len() > 0 || config.some_def_uses_mise(wanted) {
        lemma_line_section(all[5], mise);
        lemma_section_step(all, 5, 0, 9, mise);
    }
    if config.uv@.len() > 0 || config.some_def_uses_uv(wanted) {
        lemma_line_section(all[6], uv);
        lemma_section_step(all, 6, 0, 9, uv);
    }
}

proof fn lemma_image_ground(
    all: Seq<Seq<char>>,
    config: Config,
    wanted: Seq<Seq<char>>,
    uid: nat,
    gid: nat,
)
    requires
        is_layout(all, config, wanted, uid, gid),
    ensures
        ground_laid(concat(all), start_of(all, 9), config, wanted),
{
    let file = concat(all);
    let to = start_of(all, 9);
    assert({
        &&& all_closed(all)
        &&& all.len() == 18
        &&& all[3] == option_text(packages_text(texts(config.install@)))
        &&& all[4] == crate::image::sound_text(config.audio)
    }) by {
        reveal(is_layout);
        reveal(base_sections);
    }
    lemma_bounds(all, 0, 9);
    if config.install@.len() > 0 {
        lemma_list_apt(all, 3, 0, 9, texts(config.install@));
    }
    if config.audio {
        lemma_list_apt(all, 4, 0, 9, seq!["libasound2"@, "libpulse0"@]);
    }
    lemma_image_env(all, config, wanted, uid, gid);
    assert forall|tool: Seq<char>| #[trigger] needed_tool(config, tool) implies has_tool(
        file,
        0,
        to,
        tool,
    ) && has_step(
        file,
        0,
        to,
        "ENV MISE_DATA_DIR=/usr/local/share/mise PATH=/usr/local/share/mise/shims:$PATH"@,
    ) by {
        lemma_needed_is_provided(config, tool);
        lemma_image_tool(all, config, wanted, uid, gid, tool);
    }
    assert forall|i: int| 0 <= i < wanted.len() implies toolchain_in(
        file,
        0,
        to,
        config.def_of(#[trigger] wanted[i])->Some_0,
    ) by {
        lemma_image_toolchain(all, config, wanted, uid, gid, i);
    }
}

proof fn lemma_env_lines()
    ensures
        "ENV MISE_DATA_DIR=/usr/local/share/mise PATH=/usr/local/share/mise/shims:$PATH\n"@
            == "ENV MISE_DATA_DIR=/usr/local/share/mise PATH=/usr/local/share/mise/shims:$PATH"@.push(
            '\n',
        ),
        "ENV UV_TOOL_BIN_DIR=/usr/local/bin\n"@ == "ENV UV_TOOL_BIN_DIR=/usr/local/bin"@.push(
            '\n',
        ),
{
    reveal_strlit(
        "ENV MISE_DATA_DIR=/usr/local/share/mise PATH=/usr/local/share/mise/shims:$PATH\n",
    );
    reveal_strlit(
        "ENV MISE_DATA_DIR=/usr/local/share/mise PATH=/usr/local/share/mise/shims:$PATH",
    );
    reveal_strlit("ENV UV_TOOL_BIN_DIR=/usr/local/bin\n");
    reveal_strlit("ENV UV_TOOL_BIN_DIR=/usr/local/bin");
    assert("ENV MISE_DATA_DIR=/usr/local/share/mise PATH=/usr/local/share/mise/shims:$PATH\n"@
        =~= "ENV MISE_DATA_DIR=/usr/local/share/mise PATH=/usr/local/share/mise/shims:$PATH"@.push(
        '\n',
    ));
    assert("ENV UV_TOOL_BIN_DIR=/usr/local/bin\n"@
        =~= "ENV UV_TOOL_BIN_DIR=/usr/local/bin"@.push('\n'));
}

/// The build of an image starts from the base image in the workspace, makes
/// the agent's user, and installs the harness; with the packages, the tools and
/// every toolchain that is selected or included, that is done before the first
/// of the package lists is installed. Each list is installed with its own
/// installer. Only then are the directories of the system closed, and last the
/// file names the harness's command. The result gives the three positions.
pub proof fn lemma_image_installs(config: Config, uid: nat, gid: nat) -> (r: (int, int, int))
    requires
        config.includes().dom().finite(),
        config.containerfile_text(uid, gid) is Ok,
    ensures
        ({
            let file = config.containerfile_text(uid, gid)->Ok_0;
            let wanted = expansion(config.includes(), texts(config.toolchains@))->Ok_0;
            &&& 0 <= r.0 <= r.1 <= r.2 < file.len()
            &&& forall|i: int|
                0 <= i < config.toolchains@.len() ==> wanted.contains(
                    #[trigger] config.toolchains@[i]@,
                )
            &&& step_at(file, 0, "FROM "@ + config.base_image@)
            &&& has_step(file, 0, r.0, "WORKDIR "@ + config.workspace@)
            &&& runs_within(file, 0, r.0, user_command(uid, gid))
            &&& has_step(file, 0, r.0, "ENV HOME=/home/agent"@)
            &&& harness_installed(file, 0, r.0, config)
            &&& ground_laid(file, r.0, config, wanted)
            &&& lists_installed(file, r.0, r.1, config)
            &&& runs_within(
                file,
                r.1,
                r.2,
                seq![
                    "chown"@,
                    "-R"@,
                    decimal_text(uid) + ":"@ + decimal_text(gid),
                    "/home/agent"@,
                ],
            )
            &&& runs_within(file, r.1, r.2, seq!["chmod"@, "-R"@, "a+rwX"@, "/tmp"@])
            &&& file.skip(r.2) == closing_lines(config)
            &&& r.2 == 0 || file[r.2 - 1] == '\n'
        }),
{
    let wanted = expansion(config.includes(), texts(config.toolchains@))->Ok_0;
    let all = image_sections(config, wanted, uid, gid);
    crate::toolchain::lemma_expansion_complete(config.includes(), texts(config.toolchains@));
    assert forall|i: int| 0 <= i < config.toolchains@.len() implies wanted.contains(
        #[trigger] config.toolchains@[i]@,
    ) by {
        assert(wanted.contains(texts(config.toolchains@)[i]));
    }
    lemma_image_layout(config, wanted, uid, gid);
    lemma_image_ground(all, config, wanted, uid, gid);
    lemma_image_lists(all, config, wanted, uid, gid);
    lemma_image_edges(all, config, wanted, uid, gid);
    lemma_image_agent(all, config, wanted, uid, gid);
    (start_of(all, 9), start_of(all, 14), start_of(all, 16))
}

/// The harness is installed: a known one from its npm package, any other by its
/// own command.
pub open spec fn harness_installed(file: Seq<char>, from: int, to: int, config: Config) -> bool {
    match config.harness {
        crate::builtin::Harness::Opencode { .. } => runs_within(
            file,
            from,
            to,
            npm_command(seq!["opencode-ai"@]),
        ),
        crate::builtin::Harness::ClaudeCode { names, .. } => runs_line(
            file,
            from,
            to,
            "npm install --global @anthropic-ai/"@ + names@.base + "-code"@,
        ),
        crate::builtin::Harness::Defined { definition, .. } => runs_line(
            file,
            from,
            to,
            definition.install@,
        ),
    }
}

proof fn lemma_harness_section(config: Config)
    ensures
        harness_installed(
            config.harness.install_text(),
            0,
            config.harness.install_text().len() as int,
            config,
        ),
{
    reveal(runs_line);
    let text = config.harness.install_text();
    reveal_strlit("\n");
    reveal_strlit("RUN ");
    match config.harness {
        crate::builtin::Harness::Opencode { .. } => {
            reveal_strlit("RUN npm install --global opencode-ai\n");
            reveal_strlit("npm install --global");
            reveal_strlit("opencode-ai");
            let prefix = "npm install --global"@;
            let line = prefix + (seq![' '] + "opencode-ai"@);
            lemma_installers();
            lemma_split_bare(prefix, "opencode-ai"@, None);
            lemma_shell_one_word("opencode-ai"@);
            assert(seq!["npm"@, "install"@, "--global"@] + seq!["opencode-ai"@] =~= npm_command(
                seq!["opencode-ai"@],
            ));
            lemma_one_run(line, npm_command(seq!["opencode-ai"@]));
            assert(text =~= ("RUN "@ + line).push('\n'));
        },
        crate::builtin::Harness::ClaudeCode { names, .. } => {
            reveal_strlit("RUN npm install --global @anthropic-ai/");
            reveal_strlit("npm install --global @anthropic-ai/");
            reveal_strlit("-code\n");
            reveal_strlit("-code");
            let line = "npm install --global @anthropic-ai/"@ + names@.base + "-code"@;
            assert(text =~= ("RUN "@ + line).push('\n'));
            lemma_whole_step("RUN "@ + line);
            assert(runs_line(text, 0, text.len() as int, line));
        },
        crate::builtin::Harness::Defined { definition, .. } => {
            let line = definition.install@;
            assert(text =~= ("RUN "@ + line).push('\n'));
            lemma_whole_step("RUN "@ + line);
            assert(runs_line(text, 0, text.len() as int, line));
        },
    }
}

proof fn lemma_first_section(config: Config, uid: nat, gid: nat)
    ensures
        step_at(base_sections(config, uid, gid)[0], 0, "FROM "@ + config.base_image@),
        has_step(
            base_sections(config, uid, gid)[0],
            0,
            base_sections(config, uid, gid)[0].len() as int,
            "WORKDIR "@ + config.workspace@,
        ),
{
    reveal(has_step);
    reveal(base_sections);
    reveal_strlit("\n");
    reveal_strlit("\nWORKDIR ");
    reveal_strlit("WORKDIR ");
    let text = base_sections(config, uid, gid)[0];
    let none = Seq::<char>::empty();
    let first = ("FROM "@ + config.base_image@).push('\n');
    let second = ("WORKDIR "@ + config.workspace@).push('\n');
    assert("\nWORKDIR "@ =~= seq!['\n'] + "WORKDIR "@);
    lemma_whole_step("FROM "@ + config.base_image@);
    lemma_whole_step("WORKDIR "@ + config.workspace@);
    assert(text =~= none + first + second);
    assert(text =~= first + second + none);
    lemma_step_inside(none, first, second, 0, "FROM "@ + config.base_image@);
    lemma_step_inside(first, second, none, 0, "WORKDIR "@ + config.workspace@);
    assert(step_at(text, first.len() as int, "WORKDIR "@ + config.workspace@));
}

/// The last two lines of an image.
pub open spec fn closing_lines(config: Config) -> Seq<char> {
    "RUN find /usr /etc -xdev -type d -exec chmod a-w {} +\nCMD "@
        + crate::image::json_command_text(config.harness.command_texts()) + "\n"@
}

proof fn lemma_image_edges(
    all: Seq<Seq<char>>,
    config: Config,
    wanted: Seq<Seq<char>>,
    uid: nat,
    gid: nat,
)
    requires
        is_layout(all, config, wanted, uid, gid),
    ensures
        step_at(concat(all), 0, "FROM "@ + config.base_image@),
        has_step(concat(all), 0, start_of(all, 9), "WORKDIR "@ + config.workspace@),
        harness_installed(concat(all), 0, start_of(all, 9), config),
        0 <= start_of(all, 9) <= start_of(all, 14) <= start_of(all, 16) < concat(all).len(),
        concat(all).skip(start_of(all, 16)) == closing_lines(config),
        is_closed(concat(all).take(start_of(all, 16))),
{
    assert({
        &&& all_closed(all)
        &&& all.len() == 18
        &&& all[0] == base_sections(config, uid, gid)[0]
        &&& all[2] == config.harness.install_text()
    }) by {
        reveal(is_layout);
        reveal(base_sections);
    }
    lemma_bounds(all, 0, 9);
    lemma_bounds(all, 9, 14);
    lemma_bounds(all, 14, 16);
    lemma_first_section(config, uid, gid);
    lemma_section(all, 0);
    lemma_step_inside(
        concat(all.take(0)),
        all[0],
        concat(all.skip(1)),
        0,
        "FROM "@ + config.base_image@,
    );
    lemma_section_step(all, 0, 0, 9, "WORKDIR "@ + config.workspace@);
    lemma_harness_section(config);
    match config.harness {
        crate::builtin::Harness::Opencode { .. } => lemma_section_runs(
            all,
            2,
            0,
            9,
            npm_command(seq!["opencode-ai"@]),
        ),
        crate::builtin::Harness::ClaudeCode { names, .. } => lemma_section_line(
            all,
            2,
            0,
            9,
            "npm install --global @anthropic-ai/"@ + names@.base + "-code"@,
        ),
        crate::builtin::Harness::Defined { definition, .. } => lemma_section_line(
            all,
            2,
            0,
            9,
            definition.install@,
        ),
    }
    lemma_image_tail(all, config, wanted, uid, gid);
}

proof fn lemma_last_two(all: Seq<Seq<char>>, k: int)
    requires
        all_closed(all),
        k + 2 == all.len(),
        k >= 0,
    ensures
        concat(all).skip(start_of(all, k)) == all[k] + all[k + 1],
        concat(all).take(start_of(all, k)) == concat(all.take(k)),
        start_of(all, k) + all[k].len() <= concat(all).len(),
        is_closed(concat(all.take(k))),
{
    lemma_section(all, k);
    let last = all.skip(k + 1);
    lemma_concat_push(Seq::empty(), all[k + 1]);
    assert(last =~= Seq::<Seq<char>>::empty().push(all[k + 1]));
    assert(concat(last) =~= all[k + 1]);
    let before = concat(all.take(k));
    assert(concat(all) =~= before + (all[k] + all[k + 1]));
    assert(concat(all).skip(before.len() as int) =~= all[k] + all[k + 1]);
    assert(concat(all).take(before.len() as int) =~= before);
}

proof fn lemma_closing_text(config: Config)
    ensures
        crate::image::sealing_text() + ("CMD "@ + crate::image::json_command_text(
            config.harness.command_texts(),
        ) + "\n"@) == closing_lines(config),
        crate::image::sealing_text().len() > 0,
{
    reveal_strlit("RUN find /usr /etc -xdev -type d -exec chmod a-w {} +\n");
    reveal_strlit("RUN find /usr /etc -xdev -type d -exec chmod a-w {} +\nCMD ");
    reveal_strlit("CMD ");
    let words = crate::image::json_command_text(config.harness.command_texts());
    assert("RUN find /usr /etc -xdev -type d -exec chmod a-w {} +\nCMD "@
        =~= "RUN find /usr /etc -xdev -type d -exec chmod a-w {} +\n"@ + "CMD "@);
    assert(crate::image::sealing_text() + ("CMD "@ + words + "\n"@) =~= closing_lines(config));
}

proof fn lemma_image_tail(
    all: Seq<Seq<char>>,
    config: Config,
    wanted: Seq<Seq<char>>,
    uid: nat,
    gid: nat,
)
    requires
        is_layout(all, config, wanted, uid, gid),
    ensures
        start_of(all, 16) < concat(all).len(),
        concat(all).skip(start_of(all, 16)) == closing_lines(config),
        is_closed(concat(all).take(start_of(all, 16))),
{
    assert({
        &&& all_closed(all)
        &&& all.len() == 18
        &&& all[16] == crate::image::sealing_text()
        &&& all[17] == "CMD "@ + crate::image::json_command_text(config.harness.command_texts())
            + "\n"@
    }) by {
        reveal(is_layout);
        reveal(end_sections);
    }
    lemma_last_two(all, 16);
    lemma_closing_text(config);
}

/// The command that makes the agent's home and user.
pub open spec fn user_command(uid: nat, gid: nat) -> Seq<Seq<char>> {
    seq!["mkdir"@, "-p"@, "/home/agent"@, "&&"@] + seq![
        "(useradd"@,
        "-o"@,
        "-m"@,
        "-d"@,
        "/home/agent"@,
    ] + seq!["-u"@, decimal_text(uid), "-g"@, decimal_text(gid)] + seq![
        "-s"@,
        "/bin/sh"@,
        "agent"@,
        "||"@,
        "true)"@,
    ]
}

proof fn lemma_number_is_bare(number: nat)
    ensures
        is_word(decimal_text(number)),
        is_bare(decimal_text(number)),
{
    super::reading::lemma_number_reads_back(number);
}

proof fn lemma_quoted_word(value: Seq<char>, rest: Seq<char>)
    ensures
        shell_words(quoted(value) + (seq![' '] + rest)) == with_first(value, shell_words(rest)),
{
    lemma_split_quoted(value, seq![' '] + rest, None);
    lemma_split_space(value, rest);
}

proof fn lemma_user_end()
    ensures
        ({
            let space = seq![' '];
            let text = "-s"@ + (space + ("/bin/sh"@ + (space + (quoted("agent"@) + (space + ("||"@
                + (space + "true)"@)))))));
            shell_words(text) == Some(seq!["-s"@, "/bin/sh"@, "agent"@, "||"@, "true)"@])
        }),
{
    reveal_strlit("-s");
    reveal_strlit("/bin/sh");
    reveal_strlit("||");
    reveal_strlit("true)");
    let space = seq![' '];
    let d = "||"@ + (space + "true)"@);
    let c = quoted("agent"@) + (space + d);
    let b = "/bin/sh"@ + (space + c);
    let a = "-s"@ + (space + b);
    lemma_shell_one_word("true)"@);
    lemma_shell_word("||"@, "true)"@);
    lemma_quoted_word("agent"@, d);
    lemma_shell_word("/bin/sh"@, c);
    lemma_shell_word("-s"@, b);
    assert(shell_words(a)->Some_0 =~= seq!["-s"@, "/bin/sh"@, "agent"@, "||"@, "true)"@]);
}

proof fn lemma_user_ids(uid: nat, gid: nat, rest: Seq<char>, words: Seq<Seq<char>>)
    requires
        shell_words(rest) == Some(words),
    ensures
        ({
            let space = seq![' '];
            let text = "-u"@ + (space + (decimal_text(uid) + (space + ("-g"@ + (space + (
            decimal_text(gid) + (space + rest)))))));
            shell_words(text) == Some(
                seq!["-u"@, decimal_text(uid), "-g"@, decimal_text(gid)] + words,
            )
        }),
{
    reveal_strlit("-u");
    reveal_strlit("-g");
    let space = seq![' '];
    let c = decimal_text(gid) + (space + rest);
    let b = "-g"@ + (space + c);
    let a = decimal_text(uid) + (space + b);
    lemma_number_is_bare(uid);
    lemma_number_is_bare(gid);
    lemma_shell_word(decimal_text(gid), rest);
    lemma_shell_word("-g"@, c);
    lemma_shell_word(decimal_text(uid), b);
    lemma_shell_word("-u"@, a);
    assert(shell_words("-u"@ + (space + a))->Some_0 =~= seq![
        "-u"@,
        decimal_text(uid),
        "-g"@,
        decimal_text(gid),
    ] + words);
}

proof fn lemma_user_add(rest: Seq<char>, words: Seq<Seq<char>>)
    requires
        shell_words(rest) == Some(words),
    ensures
        ({
            let space = seq![' '];
            let text = "(useradd"@ + (space + ("-o"@ + (space + ("-m"@ + (space + ("-d"@ + (space + (
            quoted("/home/agent"@) + (space + rest)))))))));
            shell_words(text) == Some(
                seq!["(useradd"@, "-o"@, "-m"@, "-d"@, "/home/agent"@] + words,
            )
        }),
{
    reveal_strlit("(useradd");
    reveal_strlit("-o");
    reveal_strlit("-m");
    reveal_strlit("-d");
    let space = seq![' '];
    let e = quoted("/home/agent"@) + (space + rest);
    let d = "-d"@ + (space + e);
    let c = "-m"@ + (space + d);
    let b = "-o"@ + (space + c);
    lemma_quoted_word("/home/agent"@, rest);
    lemma_shell_word("-d"@, e);
    lemma_shell_word("-m"@, d);
    lemma_shell_word("-o"@, c);
    lemma_shell_word("(useradd"@, b);
    assert(shell_words("(useradd"@ + (space + b))->Some_0 =~= seq![
        "(useradd"@,
        "-o"@,
        "-m"@,
        "-d"@,
        "/home/agent"@,
    ] + words);
}

proof fn lemma_user_home(rest: Seq<char>, words: Seq<Seq<char>>)
    requires
        shell_words(rest) == Some(words),
    ensures
        ({
            let space = seq![' '];
            let text = "mkdir"@ + (space + ("-p"@ + (space + (quoted("/home/agent"@) + (space + (
            "&&"@ + (space + rest)))))));
            shell_words(text) == Some(seq!["mkdir"@, "-p"@, "/home/agent"@, "&&"@] + words)
        }),
{
    reveal_strlit("mkdir");
    reveal_strlit("-p");
    reveal_strlit("&&");
    let space = seq![' '];
    let d = "&&"@ + (space + rest);
    let c = quoted("/home/agent"@) + (space + d);
    let b = "-p"@ + (space + c);
    lemma_shell_word("&&"@, rest);
    lemma_quoted_word("/home/agent"@, d);
    lemma_shell_word("-p"@, c);
    lemma_shell_word("mkdir"@, b);
    assert(shell_words("mkdir"@ + (space + b))->Some_0 =~= seq![
        "mkdir"@,
        "-p"@,
        "/home/agent"@,
        "&&"@,
    ] + words);
}

spec fn user_line(uid: nat, gid: nat) -> Seq<char> {
    let space = seq![' '];
    let end = "-s"@ + (space + ("/bin/sh"@ + (space + (quoted("agent"@) + (space + ("||"@ + (space
        + "true)"@)))))));
    let ids = "-u"@ + (space + (decimal_text(uid) + (space + ("-g"@ + (space + (decimal_text(gid)
        + (space + end)))))));
    let adding = "(useradd"@ + (space + ("-o"@ + (space + ("-m"@ + (space + ("-d"@ + (space + (
    quoted("/home/agent"@) + (space + ids)))))))));
    "mkdir"@ + (space + ("-p"@ + (space + (quoted("/home/agent"@) + (space + ("&&"@ + (space
        + adding)))))))
}

proof fn lemma_user_line(uid: nat, gid: nat)
    ensures
        shell_words(user_line(uid, gid)) == Some(user_command(uid, gid)),
{
    let space = seq![' '];
    let end = "-s"@ + (space + ("/bin/sh"@ + (space + (quoted("agent"@) + (space + ("||"@ + (space
        + "true)"@)))))));
    let ids = "-u"@ + (space + (decimal_text(uid) + (space + ("-g"@ + (space + (decimal_text(gid)
        + (space + end)))))));
    let adding = "(useradd"@ + (space + ("-o"@ + (space + ("-m"@ + (space + ("-d"@ + (space + (
    quoted("/home/agent"@) + (space + ids)))))))));
    let w1 = seq!["-s"@, "/bin/sh"@, "agent"@, "||"@, "true)"@];
    let w2 = seq!["-u"@, decimal_text(uid), "-g"@, decimal_text(gid)] + w1;
    let w3 = seq!["(useradd"@, "-o"@, "-m"@, "-d"@, "/home/agent"@] + w2;
    lemma_user_end();
    lemma_user_ids(uid, gid, end, w1);
    lemma_user_add(ids, w2);
    lemma_user_home(adding, w3);
    assert(seq!["mkdir"@, "-p"@, "/home/agent"@, "&&"@] + w3 =~= user_command(uid, gid));
}

proof fn lemma_preamble_parts(
    home: Seq<char>,
    user: Seq<char>,
    u: Seq<char>,
    g: Seq<char>,
)
    ensures
        ({
            let space = seq![' '];
            let end = "-s"@ + (space + ("/bin/sh"@ + (space + (user + (space + ("||"@ + (space
                + "true)"@)))))));
            let ids = "-u"@ + (space + (u + (space + ("-g"@ + (space + (g + (space + end)))))));
            let adding = "(useradd"@ + (space + ("-o"@ + (space + ("-m"@ + (space + ("-d"@ + (space
                + (home + (space + ids)))))))));
            let line = "mkdir"@ + (space + ("-p"@ + (space + (home + (space + ("&&"@ + (space
                + adding)))))));
            "RUN mkdir -p "@ + home + " && (useradd -o -m -d "@ + home + " -u "@ + u + " -g "@ + g
                + " -s /bin/sh "@ + user + " || true)\n"@ == ("RUN "@ + line).push('\n')
        }),
{
    reveal_strlit("RUN mkdir -p ");
    reveal_strlit(" && (useradd -o -m -d ");
    reveal_strlit(" -u ");
    reveal_strlit(" -g ");
    reveal_strlit(" -s /bin/sh ");
    reveal_strlit(" || true)\n");
    reveal_strlit("RUN ");
    reveal_strlit("mkdir");
    reveal_strlit("-p");
    reveal_strlit("&&");
    reveal_strlit("(useradd");
    reveal_strlit("-o");
    reveal_strlit("-m");
    reveal_strlit("-d");
    reveal_strlit("-u");
    reveal_strlit("-g");
    reveal_strlit("-s");
    reveal_strlit("/bin/sh");
    reveal_strlit("||");
    reveal_strlit("true)");
    let space = seq![' '];
    assert("RUN mkdir -p "@ =~= "RUN "@ + "mkdir"@ + space + "-p"@ + space);
    assert(" && (useradd -o -m -d "@ =~= space + "&&"@ + space + "(useradd"@ + space + "-o"@ + space
        + "-m"@ + space + "-d"@ + space);
    assert(" -u "@ =~= space + "-u"@ + space);
    assert(" -g "@ =~= space + "-g"@ + space);
    assert(" -s /bin/sh "@ =~= space + "-s"@ + space + "/bin/sh"@ + space);
    assert(" || true)\n"@ =~= space + "||"@ + space + "true)"@ + seq!['\n']);
    let end = "-s"@ + (space + ("/bin/sh"@ + (space + (user + (space + ("||"@ + (space
        + "true)"@)))))));
    let ids = "-u"@ + (space + (u + (space + ("-g"@ + (space + (g + (space + end)))))));
    let adding = "(useradd"@ + (space + ("-o"@ + (space + ("-m"@ + (space + ("-d"@ + (space + (home
        + (space + ids)))))))));
    let line = "mkdir"@ + (space + ("-p"@ + (space + (home + (space + ("&&"@ + (space
        + adding)))))));
    lemma_preamble_joined(
        "RUN "@,
        "mkdir"@,
        "-p"@,
        "&&"@,
        "(useradd"@,
        "-o"@,
        "-m"@,
        "-d"@,
        "-u"@,
        "-g"@,
        "-s"@,
        "/bin/sh"@,
        "||"@,
        "true)"@,
        home,
        user,
        u,
        g,
        space,
    );
    assert(("RUN "@ + line).push('\n') =~= "RUN "@ + line + seq!['\n']);
}

proof fn lemma_preamble_joined(
    run: Seq<char>,
    a: Seq<char>,
    b: Seq<char>,
    c: Seq<char>,
    d: Seq<char>,
    e: Seq<char>,
    f: Seq<char>,
    g: Seq<char>,
    h: Seq<char>,
    i: Seq<char>,
    j: Seq<char>,
    k: Seq<char>,
    l: Seq<char>,
    m: Seq<char>,
    home: Seq<char>,
    user: Seq<char>,
    uid: Seq<char>,
    gid: Seq<char>,
    space: Seq<char>,
)
    ensures
        ({
            let end = j + (space + (k + (space + (user + (space + (l + (space + m)))))));
            let ids = h + (space + (uid + (space + (i + (space + (gid + (space + end)))))));
            let adding = d + (space + (e + (space + (f + (space + (g + (space + (home + (space
                + ids)))))))));
            let line = a + (space + (b + (space + (home + (space + (c + (space + adding)))))));
            run + line + seq!['\n'] == (run + a + space + b + space) + home + (space + c + space
                + d + space + e + space + f + space + g + space) + home + (space + h + space)
                + uid + (space + i + space) + gid + (space + j + space + k + space) + user + (
            space + l + space + m + seq!['\n'])
        }),
{
    let nl = seq!['\n'];
    let end = j + (space + (k + (space + (user + (space + (l + (space + m)))))));
    let ids = h + (space + (uid + (space + (i + (space + (gid + (space + end)))))));
    let adding = d + (space + (e + (space + (f + (space + (g + (space + (home + (space + ids)))))))));
    let tail = space + l + space + m + nl;
    let t1 = (space + j + space + k + space) + user + tail;
    lemma_five_words(j, k, user, l, m, space, nl);
    let t2 = (space + h + space) + uid + (space + i + space) + gid + t1;
    lemma_four_words(h, uid, i, gid, end, space, nl);
    assert(space + end + nl == t1);
    assert(space + ids + nl == t2);
    let more = space + c + space + d + space + e + space + f + space + g + space;
    lemma_six_words(c, d, e, f, g, home, ids, space, nl);
    assert(space + (c + (space + adding)) + nl == more + home + t2);
    let rest = space + (c + (space + adding));
    assert(a + (space + (b + (space + (home + rest)))) + nl =~= a + space + b + space + home + (
    rest + nl));
    lemma_preamble_regrouped(run + a + space + b + space, run, a, b, space, home, rest, nl);
    lemma_parts_flat(
        run + a + space + b + space,
        home,
        more,
        space + h + space,
        uid,
        space + i + space,
        gid,
        space + j + space + k + space,
        user,
        tail,
    );
}

proof fn lemma_preamble_regrouped(
    front: Seq<char>,
    run: Seq<char>,
    a: Seq<char>,
    b: Seq<char>,
    space: Seq<char>,
    home: Seq<char>,
    rest: Seq<char>,
    nl: Seq<char>,
)
    requires
        front == run + a + space + b + space,
    ensures
        run + (a + (space + (b + (space + (home + rest))))) + nl == front + home + (rest + nl),
{
    assert(run + (a + (space + (b + (space + (home + rest))))) + nl =~= front + home + (rest
        + nl));
}

proof fn lemma_five_words(
    j: Seq<char>,
    k: Seq<char>,
    user: Seq<char>,
    l: Seq<char>,
    m: Seq<char>,
    space: Seq<char>,
    nl: Seq<char>,
)
    ensures
        space + (j + (space + (k + (space + (user + (space + (l + (space + m)))))))) + nl == (space
            + j + space + k + space) + user + (space + l + space + m + nl),
{
    assert(space + (j + (space + (k + (space + (user + (space + (l + (space + m)))))))) + nl =~= (
    space + j + space + k + space) + user + (space + l + space + m + nl));
}

proof fn lemma_four_words(
    h: Seq<char>,
    uid: Seq<char>,
    i: Seq<char>,
    gid: Seq<char>,
    end: Seq<char>,
    space: Seq<char>,
    nl: Seq<char>,
)
    ensures
        space + (h + (space + (uid + (space + (i + (space + (gid + (space + end)))))))) + nl == (
        space + h + space) + uid + (space + i + space) + gid + (space + end + nl),
{
    assert(space + (h + (space + (uid + (space + (i + (space + (gid + (space + end)))))))) + nl
        =~= (space + h + space) + uid + (space + i + space) + gid + (space + end + nl));
}

proof fn lemma_six_words(
    c: Seq<char>,
    d: Seq<char>,
    e: Seq<char>,
    f: Seq<char>,
    g: Seq<char>,
    home: Seq<char>,
    ids: Seq<char>,
    space: Seq<char>,
    nl: Seq<char>,
)
    ensures
        space + (c + (space + (d + (space + (e + (space + (f + (space + (g + (space + (home + (space
            + ids)))))))))))) + nl == (space + c + space + d + space + e + space + f + space + g
            + space) + home + (space + ids + nl),
{
    let inner = g + (space + (home + (space + ids)));
    assert(space + inner + nl =~= (space + g + space) + home + (space + ids + nl));
    let t = space + inner + nl;
    assert(space + (c + (space + (d + (space + (e + (space + (f + (space + inner)))))))) + nl
        =~= (space + c + space + d + space + e + space + f) + t);
    let front = space + c + space + d + space + e + space + f;
    assert(front + ((space + g + space) + home + (space + ids + nl)) =~= (front + space + g
        + space) + home + (space + ids + nl));
}

proof fn lemma_parts_flat(
    front: Seq<char>,
    home: Seq<char>,
    more: Seq<char>,
    h: Seq<char>,
    uid: Seq<char>,
    i: Seq<char>,
    gid: Seq<char>,
    j: Seq<char>,
    user: Seq<char>,
    tail: Seq<char>,
)
    ensures
        front + home + (more + home + (h + uid + i + gid + (j + user + tail))) == front + home
            + more + home + h + uid + i + gid + j + user + tail,
{
    assert(front + home + (more + home + (h + uid + i + gid + (j + user + tail))) =~= front + home
        + more + home + h + uid + i + gid + j + user + tail);
}

proof fn lemma_preamble_section(uid: nat, gid: nat)
    ensures
        ({
            let text = crate::image::preamble_text(uid, gid);
            &&& runs_within(text, 0, text.len() as int, user_command(uid, gid))
            &&& has_step(text, 0, text.len() as int, "ENV HOME=/home/agent"@)
        }),
{
    reveal_strlit("ENV HOME=");
    reveal_strlit("/home/agent");
    reveal_strlit("\n");
    reveal_strlit("ENV HOME=/home/agent");
    let none = Seq::<char>::empty();
    let text = crate::image::preamble_text(uid, gid);
    let home = crate::platform::AGENT_HOME@;
    let first = ("RUN "@ + user_line(uid, gid)).push('\n');
    let second = "ENV HOME=/home/agent"@.push('\n');
    lemma_preamble_parts(
        quoted("/home/agent"@),
        quoted("agent"@),
        decimal_text(uid),
        decimal_text(gid),
    );
    assert(second =~= "ENV HOME="@ + home + "\n"@);
    assert(text =~= first + second);
    lemma_user_line(uid, gid);
    lemma_one_run(user_line(uid, gid), user_command(uid, gid));
    assert(none + first + second =~= text);
    assert(first + second + none =~= text);
    lemma_runs_inside(none, first, second, user_command(uid, gid));
    lemma_widened(
        text,
        0,
        first.len() as int,
        0,
        text.len() as int,
        user_command(uid, gid),
    );
    lemma_whole_step("ENV HOME=/home/agent"@);
    lemma_step_inside(first, second, none, 0, "ENV HOME=/home/agent"@);
    reveal(has_step);
    assert(step_at(text, first.len() as int, "ENV HOME=/home/agent"@));
}

proof fn lemma_epilogue_section(uid: nat, gid: nat)
    ensures
        ({
            let text = crate::image::epilogue_text(uid, gid);
            runs_within(
                text,
                0,
                text.len() as int,
                seq![
                    "chown"@,
                    "-R"@,
                    decimal_text(uid) + ":"@ + decimal_text(gid),
                    "/home/agent"@,
                ],
            )
        }),
{
    reveal_strlit("RUN chown -R ");
    reveal_strlit("RUN ");
    reveal_strlit("chown");
    reveal_strlit("-R");
    reveal_strlit(":");
    reveal_strlit(" ");
    reveal_strlit("\n");
    let space = seq![' '];
    let none = Seq::<char>::empty();
    let text = crate::image::epilogue_text(uid, gid);
    let owner = decimal_text(uid) + ":"@ + decimal_text(gid);
    lemma_number_is_bare(uid);
    lemma_number_is_bare(gid);
    lemma_free_of_add(decimal_text(uid), ":"@, ' ');
    lemma_free_of_add(decimal_text(uid), ":"@, '\'');
    lemma_free_of_add(decimal_text(uid), ":"@, '\\');
    lemma_free_of_add(decimal_text(uid) + ":"@, decimal_text(gid), ' ');
    lemma_free_of_add(decimal_text(uid) + ":"@, decimal_text(gid), '\'');
    lemma_free_of_add(decimal_text(uid) + ":"@, decimal_text(gid), '\\');
    let c = quoted("/home/agent"@);
    let b = owner + (space + c);
    let a = "-R"@ + (space + b);
    let line = "chown"@ + (space + a);
    lemma_split_quoted("/home/agent"@, none, None);
    assert(c + none =~= c);
    lemma_shell_word(owner, c);
    lemma_shell_word("-R"@, b);
    lemma_shell_word("chown"@, a);
    let words = seq!["chown"@, "-R"@, owner, "/home/agent"@];
    assert(shell_words(line)->Some_0 =~= words);
    lemma_one_run(line, words);
    assert("RUN chown -R "@ =~= "RUN "@ + "chown"@ + space + "-R"@ + space);
    assert(text =~= ("RUN "@ + line).push('\n'));
}

proof fn lemma_temporary_section()
    ensures
        runs_within(
            "RUN chmod -R a+rwX /tmp\n"@,
            0,
            "RUN chmod -R a+rwX /tmp\n"@.len() as int,
            seq!["chmod"@, "-R"@, "a+rwX"@, "/tmp"@],
        ),
{
    reveal_strlit("RUN chmod -R a+rwX /tmp\n");
    reveal_strlit("RUN ");
    reveal_strlit("chmod");
    reveal_strlit("-R");
    reveal_strlit("a+rwX");
    reveal_strlit("/tmp");
    let space = seq![' '];
    let b = "a+rwX"@ + (space + "/tmp"@);
    let a = "-R"@ + (space + b);
    let line = "chmod"@ + (space + a);
    lemma_shell_one_word("/tmp"@);
    lemma_shell_word("a+rwX"@, "/tmp"@);
    lemma_shell_word("-R"@, b);
    lemma_shell_word("chmod"@, a);
    let words = seq!["chmod"@, "-R"@, "a+rwX"@, "/tmp"@];
    assert(shell_words(line)->Some_0 =~= words);
    lemma_one_run(line, words);
    assert("RUN chmod -R a+rwX /tmp\n"@ =~= ("RUN "@ + line).push('\n'));
}

proof fn lemma_image_agent(
    all: Seq<Seq<char>>,
    config: Config,
    wanted: Seq<Seq<char>>,
    uid: nat,
    gid: nat,
)
    requires
        is_layout(all, config, wanted, uid, gid),
    ensures
        runs_within(concat(all), 0, start_of(all, 9), user_command(uid, gid)),
        has_step(concat(all), 0, start_of(all, 9), "ENV HOME=/home/agent"@),
        runs_within(
            concat(all),
            start_of(all, 14),
            start_of(all, 16),
            seq!["chown"@, "-R"@, decimal_text(uid) + ":"@ + decimal_text(gid), "/home/agent"@],
        ),
        runs_within(
            concat(all),
            start_of(all, 14),
            start_of(all, 16),
            seq!["chmod"@, "-R"@, "a+rwX"@, "/tmp"@],
        ),
{
    assert({
        &&& all_closed(all)
        &&& all.len() == 18
        &&& all[1] == crate::image::preamble_text(uid, gid)
        &&& all[14] == crate::image::epilogue_text(uid, gid)
        &&& all[15] == "RUN chmod -R a+rwX /tmp\n"@
    }) by {
        reveal(is_layout);
        reveal(base_sections);
        reveal(end_sections);
    }
    lemma_bounds(all, 0, 9);
    lemma_preamble_section(uid, gid);
    lemma_section_runs(all, 1, 0, 9, user_command(uid, gid));
    lemma_section_step(all, 1, 0, 9, "ENV HOME=/home/agent"@);
    lemma_epilogue_section(uid, gid);
    lemma_section_runs(
        all,
        14,
        14,
        16,
        seq!["chown"@, "-R"@, decimal_text(uid) + ":"@ + decimal_text(gid), "/home/agent"@],
    );
    lemma_temporary_section();
    lemma_section_runs(all, 15, 14, 16, seq!["chmod"@, "-R"@, "a+rwX"@, "/tmp"@]);
}

/// What stands between the quotation marks of a word, with its escapes undone.
pub open spec fn unescaped(text: Seq<char>) -> Option<Seq<char>>
    decreases text.len(),
{
    if text.len() == 0 {
        Some(Seq::empty())
    } else if text[0] == '"' {
        None
    } else if text[0] == '\\' {
        if text.len() >= 2 && (text[1] == '\\' || text[1] == '"') {
            match unescaped(text.skip(2)) {
                Some(rest) => Some(seq![text[1]] + rest),
                None => None,
            }
        } else {
            None
        }
    } else {
        match unescaped(text.skip(1)) {
            Some(rest) => Some(seq![text[0]] + rest),
            None => None,
        }
    }
}

spec fn escaped(item: Seq<char>) -> Seq<char> {
    crate::text::replaced_char(
        crate::text::replaced_char(item, '\\', "\\\\"@),
        '"',
        "\\\""@,
    )
}

proof fn lemma_escaped_add(first: Seq<char>, second: Seq<char>)
    ensures
        escaped(first + second) == escaped(first) + escaped(second),
{
    super::texts::lemma_replacing_is_by_character(first, second, '\\', "\\\\"@);
    super::texts::lemma_replacing_is_by_character(
        crate::text::replaced_char(first, '\\', "\\\\"@),
        crate::text::replaced_char(second, '\\', "\\\\"@),
        '"',
        "\\\""@,
    );
}

proof fn lemma_escaped_char(c: char)
    ensures
        escaped(seq![c]) == (if c == '\\' {
            seq!['\\', '\\']
        } else if c == '"' {
            seq!['\\', '"']
        } else {
            seq![c]
        }),
{
    reveal_strlit("\\\\");
    reveal_strlit("\\\"");
    let none = Seq::<char>::empty();
    assert("\\\\"@ =~= seq!['\\', '\\']);
    assert("\\\""@ =~= seq!['\\', '"']);
    super::texts::lemma_replacing_is_by_character(none, none, '\\', "\\\\"@);
    super::texts::lemma_replacing_is_by_character(none, none, '"', "\\\""@);
    if c == '\\' {
        super::texts::lemma_replacing_is_by_character(seq!['\\'], seq!['\\'], '"', "\\\""@);
        assert(seq!['\\'] + seq!['\\'] =~= seq!['\\', '\\']);
        assert(crate::text::replaced_char(seq!['\\'], '"', "\\\""@) == seq!['\\']);
    } else {
        assert(crate::text::replaced_char(seq![c], '\\', "\\\\"@) == seq![c]);
    }
}

proof fn lemma_unescaped_rest(item: Seq<char>)
    ensures
        unescaped(escaped(item)) == Some(item),
    decreases item.len(),
{
    if item.len() == 0 {
        assert(item =~= Seq::empty());
        assert(escaped(item) =~= Seq::empty());
    } else {
        let first = seq![item[0]];
        let rest = item.skip(1);
        assert(first + rest =~= item);
        lemma_escaped_add(first, rest);
        lemma_escaped_char(item[0]);
        lemma_unescaped_rest(rest);
        let text = escaped(item);
        if item[0] == '\\' || item[0] == '"' {
            assert(text[0] == '\\' && text[1] == item[0]);
            assert(text.skip(2) =~= escaped(rest));
        } else {
            assert(text[0] == item[0]);
            assert(text.skip(1) =~= escaped(rest));
        }
    }
}

/// Each word of the harness's command is read back from the file: what stands
/// between its quotation marks is the word, with its escapes undone.
pub proof fn lemma_command_words_read_back(item: Seq<char>)
    ensures
        ({
            let word = crate::image::json_word(item);
            &&& word.len() >= 2
            &&& word[0] == '"' && word.last() == '"'
            &&& unescaped(word.subrange(1, word.len() - 1)) == Some(item)
        }),
{
    reveal_strlit("\"");
    let word = crate::image::json_word(item);
    lemma_unescaped_rest(item);
    assert(word.subrange(1, word.len() - 1) =~= escaped(item));
}

} // verus!
