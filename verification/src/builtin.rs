//! The harness of a configuration, and what it asks of a session: its command,
//! its mounts, its settings and its environment. Two harnesses are known in
//! full; any other has a definition.

use crate::failure::{failed, failure, plain, Failure, FailureView};
use crate::harness::def::HarnessDef;
use crate::harness::selection;
use crate::harness::selection::{sink_problem, unknown_harness, unknown_message, validate_sink};
use crate::json::{
    compact_json, find_member, json_compact, json_parsed, json_pretty, lemma_list_tree,
    lemma_object_tree, lemma_with_member_reads_back, member_of, member_trees, parse_json, parses_to,
    pretty_json, reads_back, set_member, tree_member, trees, with_member, Json, JsonTree,
};
use crate::paths::{join_path, path_join};
use crate::platform::AGENT_HOME;
use crate::podman::{
    push_all, push_prepare, push_tmpfs, push_volume, tmpfs_args, volume_args, HostDirs, MountPlan,
    MountPlanView, Prepare, Prepared,
};
use crate::text::{
    cat2, cat3, cat5, cat7, chars_of, ends_with, has_suffix, lemma_texts_push, lists, same_text,
    text_between, text_of, text_pairs, texts,
};
use vstd::prelude::*;
use vstd::string::*;

verus! {

/// Permissions by tool, in the order of the tools' names.
pub type Allowlist = Vec<(String, Json)>;

#[derive(Clone, Copy, PartialEq, Eq, Structural)]
pub enum Access {
    /// Bind the host file read-only into the container.
    ReadOnly,
    /// Bind an existing or created host file read-write.
    Pinned,
    /// Bind an existing or created host directory read-write.
    PinnedDir,
}

/// One host file or directory that the container sees.
pub struct ContentEntry {
    pub host: String,
    pub target: String,
    pub access: Access,
}

pub struct ContentEntryView {
    pub host: Seq<char>,
    pub target: Seq<char>,
    pub access: Access,
}

impl View for ContentEntry {
    type V = ContentEntryView;

    open spec fn view(&self) -> ContentEntryView {
        ContentEntryView { host: self.host@, target: self.target@, access: self.access }
    }
}

pub open spec fn entries(list: Seq<ContentEntry>) -> Seq<ContentEntryView> {
    Seq::new(list.len(), |i: int| list[i]@)
}

/// Whether an entry is mounted: a read-only one only where credentials are
/// enabled and the host has it.
pub open spec fn entry_mounted(
    entry: ContentEntryView,
    credentials: bool,
    present: Seq<Seq<char>>,
) -> bool {
    entry.access != Access::ReadOnly || (credentials && present.contains(entry.host))
}

pub open spec fn entry_args(
    entry: ContentEntryView,
    credentials: bool,
    present: Seq<Seq<char>>,
) -> Seq<Seq<char>> {
    if entry_mounted(entry, credentials, present) {
        volume_args(entry.host, entry.target, entry.access == Access::ReadOnly)
    } else {
        Seq::empty()
    }
}

pub open spec fn entry_prepares(entry: ContentEntryView) -> Seq<Prepared> {
    match entry.access {
        Access::ReadOnly => Seq::empty(),
        Access::Pinned => seq![Prepared::File(entry.host)],
        Access::PinnedDir => seq![Prepared::Directory(entry.host)],
    }
}

/// The arguments of several entries, one after the other.
pub open spec fn entries_args(
    list: Seq<ContentEntryView>,
    credentials: bool,
    present: Seq<Seq<char>>,
) -> Seq<Seq<char>>
    decreases list.len(),
{
    if list.len() == 0 {
        Seq::empty()
    } else {
        entries_args(list.drop_last(), credentials, present) + entry_args(
            list.last(),
            credentials,
            present,
        )
    }
}

pub open spec fn entries_prepares(list: Seq<ContentEntryView>) -> Seq<Prepared>
    decreases list.len(),
{
    if list.len() == 0 {
        Seq::empty()
    } else {
        entries_prepares(list.drop_last()) + entry_prepares(list.last())
    }
}

/// Adds the mounts of `list` to `plan`.
pub fn apply_content_entries(
    plan: &mut MountPlan,
    list: &Vec<ContentEntry>,
    credentials: bool,
    present: &[String],
)
    ensures
        final(plan)@.args == old(plan)@.args + entries_args(
            entries(list@),
            credentials,
            texts(present@),
        ),
        final(plan)@.prepare == old(plan)@.prepare + entries_prepares(entries(list@)),
{
    let ghost all = entries(list@);
    let ghost start = plan@;
    let mut i: usize = 0;
    assert(all.take(0) =~= Seq::empty());
    assert(start.args + Seq::<Seq<char>>::empty() =~= start.args);
    assert(start.prepare + Seq::<Prepared>::empty() =~= start.prepare);
    while i < list.len()
        invariant
            i <= list@.len(),
            all == entries(list@),
            plan@.args == start.args + entries_args(all.take(i as int), credentials, texts(present@)),
            plan@.prepare == start.prepare + entries_prepares(all.take(i as int)),
        decreases list@.len() - i,
    {
        let entry = &list[i];
        let ghost before = plan@;
        proof {
            assert(all.take(i + 1).drop_last() =~= all.take(i as int));
            assert(all.take(i + 1).last() == entry@);
        }
        match entry.access {
            Access::ReadOnly => {},
            Access::Pinned => push_prepare(&mut plan.prepare, Prepare::File(entry.host.clone())),
            Access::PinnedDir => push_prepare(
                &mut plan.prepare,
                Prepare::Directory(entry.host.clone()),
            ),
        }
        assert(plan@.prepare =~= before.prepare + entry_prepares(entry@));
        if entry.access != Access::ReadOnly || (credentials && lists(present, entry.host.as_str())) {
            push_volume(
                &mut plan.args,
                entry.host.as_str(),
                entry.target.as_str(),
                entry.access == Access::ReadOnly,
            );
        }
        assert(plan@.args =~= before.args + entry_args(entry@, credentials, texts(present@)));
        assert(start.args + (entries_args(all.take(i as int), credentials, texts(present@))
            + entry_args(entry@, credentials, texts(present@))) =~= plan@.args);
        assert(start.prepare + (entries_prepares(all.take(i as int)) + entry_prepares(entry@))
            =~= plan@.prepare);
        i += 1;
    }
    assert(all.take(i as int) =~= all);
}

pub enum Harness {
    Opencode { command: Vec<String>, allowlist: Option<Allowlist>, credentials: bool },
    ClaudeCode {
        names: Names,
        command: Vec<String>,
        allowlist: Option<Allowlist>,
        credentials: bool,
    },
    /// A harness by its definition, as it was selected.
    Defined { definition: HarnessDef, selected: selection::Harness },
}

/// What a command line harness and its files are called.
pub struct Names {
    /// The command, and the stem of the harness's own files.
    pub base: String,
    /// The product, in messages and in the Keychain.
    pub title: String,
    /// The file with the user's standing instructions.
    pub memory: String,
}

pub struct NamesView {
    pub base: Seq<char>,
    pub title: Seq<char>,
    pub memory: Seq<char>,
}

impl View for Names {
    type V = NamesView;

    open spec fn view(&self) -> NamesView {
        NamesView { base: self.base@, title: self.title@, memory: self.memory@ }
    }
}

/// The names that go with a harness called `<base>-code`: the files and the
/// messages of its product spell the base in their own ways.
pub open spec fn names_for(name: Seq<char>) -> Option<NamesView> {
    if has_suffix(name, "-code"@) && name.len() > "-code"@.len() {
        let base = name.take(name.len() - "-code"@.len());
        Some(
            NamesView {
                base,
                title: seq![capital(base[0])] + base.skip(1) + " Code"@,
                memory: in_capitals(base) + ".md"@,
            },
        )
    } else {
        None
    }
}

/// An ASCII small letter as a capital; any other character as it is.
pub open spec fn capital(c: char) -> char {
    if 'a' <= c <= 'z' {
        (c as u32 - 32) as char
    } else {
        c
    }
}

pub open spec fn in_capitals(text: Seq<char>) -> Seq<char> {
    text.map_values(|c: char| capital(c))
}

fn to_capital(c: char) -> (r: char)
    ensures
        r == capital(c),
{
    if 'a' <= c && c <= 'z' {
        (c as u8 - 32) as char
    } else {
        c
    }
}

impl Names {
    /// Works out the names from the name that the harness is selected by.
    pub fn of(name: &str) -> (r: Option<Names>)
        ensures
            (match r {
                Some(names) => names_for(name@) == Some(names@),
                None => names_for(name@) is None,
            }),
    {
        proof {
            reveal_strlit("-code");
        }
        let chars = chars_of(name);
        if !ends_with(name, "-code") || chars.len() <= 5 {
            return None;
        }
        let end: usize = chars.len() - 5;
        let base = text_between(&chars, 0, end);
        assert(base@ =~= name@.take(end as int));
        let mut capitals: Vec<char> = Vec::new();
        let mut titled: Vec<char> = Vec::new();
        let mut i: usize = 0;
        while i < end
            invariant
                i <= end < chars@.len(),
                chars@ == name@,
                capitals@ == in_capitals(name@.take(i as int)),
                titled@.len() == i,
                forall|j: int|
                    0 <= j < i ==> titled@[j] == (if j == 0 {
                        capital(name@[0])
                    } else {
                        name@[j]
                    }),
            decreases end - i,
        {
            let c = to_capital(chars[i]);
            capitals.push(c);
            assert(capitals@ =~= in_capitals(name@.take(i + 1)));
            if i == 0 {
                titled.push(c);
            } else {
                titled.push(chars[i]);
            }
            i += 1;
        }
        assert(titled@ =~= seq![capital(base@[0])] + base@.skip(1));
        let first = text_of(&titled);
        let whole = text_of(&capitals);
        Some(
            Names {
                base,
                title: cat2(first.as_str(), " Code"),
                memory: cat2(whole.as_str(), ".md"),
            },
        )
    }
}

/// A harness with the names that go with a configured name has that name.
pub proof fn lemma_names_spell_the_name(name: Seq<char>)
    ensures
        names_for(name) is Some ==> names_for(name)->Some_0.base + "-code"@ == name,
{
    if names_for(name) is Some {
        assert(names_for(name)->Some_0.base + "-code"@ =~= name);
    }
}

pub fn default_opencode_command() -> (r: Vec<String>)
    ensures
        texts(r@) == seq!["opencode"@, "/workspace"@],
{
    let r = vec!["opencode".to_owned(), "/workspace".to_owned()];
    assert(texts(r@) =~= seq!["opencode"@, "/workspace"@]);
    r
}

/// `ClaudeCode` takes its first argument for a prompt, so the command is bare.
pub fn default_claude_code_command(names: &Names) -> (r: Vec<String>)
    ensures
        texts(r@) == seq![names@.base],
{
    let r = vec![names.base.clone()];
    assert(texts(r@) =~= seq![names@.base]);
    r
}

/// What a configuration says about its harness.
pub struct Wanted {
    pub name: String,
    pub command: Option<Vec<String>>,
    pub allowlist: Option<Allowlist>,
    pub sandbox_config: Option<String>,
    pub credentials: bool,
}

impl Wanted {
    /// The command that is wanted, or else `usual`.
    pub open spec fn command_or(self, usual: Seq<Seq<char>>) -> Seq<Seq<char>> {
        match self.command {
            Some(command) => texts(command@),
            None => usual,
        }
    }

    /// Whether one of the two harnesses that are known in full is wanted: not
    /// where the user has a definition of that name, nor where the harness is
    /// to take its configuration from a file.
    pub open spec fn known_in_full(self, names: NamesView, own: bool) -> bool {
        !own && self.sandbox_config is None && (self.name@ == "opencode"@ || self.name@
            == names.base + "-code"@)
    }
}

fn command_or_usual(command: Option<Vec<String>>, usual: Vec<String>) -> (r: Vec<String>)
    ensures
        texts(r@) == (match command {
            Some(command) => texts(command@),
            None => texts(usual@),
        }),
{
    match command {
        Some(command) => command,
        None => usual,
    }
}

/// The complaint about an allowlist for a harness that has a definition only.
pub open spec fn no_allowlist(name: Seq<char>) -> Seq<char> {
    "harness \""@ + name + "\" does not support harness.allowlist; use harness.sandbox_config"@
}

/// Finds the harness that a configuration wants. `names` are those of the
/// harness that is called after its product, `found` is the definition of the
/// wanted name, and `own` says that it is the user's.
pub fn select(
    wanted: Wanted,
    names: Names,
    found: Option<HarnessDef>,
    own: bool,
    available: &[String],
) -> (r: Result<Harness, String>)
    ensures
        (match r {
            Ok(Harness::Opencode { command, allowlist, credentials }) => {
                &&& wanted.known_in_full(names@, own)
                &&& wanted.name@ == "opencode"@
                &&& texts(command@) == wanted.command_or(seq!["opencode"@, "/workspace"@])
                &&& allowlist == wanted.allowlist
                &&& credentials == wanted.credentials
            },
            Ok(Harness::ClaudeCode { names: chosen, command, allowlist, credentials }) => {
                &&& wanted.known_in_full(names@, own)
                &&& wanted.name@ == names@.base + "-code"@
                &&& chosen == names
                &&& texts(command@) == wanted.command_or(seq![names@.base])
                &&& allowlist == wanted.allowlist
                &&& credentials == wanted.credentials
            },
            Ok(Harness::Defined { definition, selected }) => {
                &&& !wanted.known_in_full(names@, own)
                &&& found == Some(definition)
                &&& wanted.allowlist is None
                &&& selected.name@ == wanted.name@
                &&& texts(selected.command@) == wanted.command_or(texts(definition.command@))
                &&& selected.sandbox_config == wanted.sandbox_config
                &&& selected.credentials == wanted.credentials
            },
            Err(message) => !wanted.known_in_full(names@, own) && match found {
                None => message@ == unknown_harness(wanted.name@, texts(available@)),
                Some(_) => wanted.allowlist is Some && message@ == no_allowlist(wanted.name@),
            },
        }),
{
    if !own && wanted.sandbox_config.is_none() {
        let credentials = wanted.credentials;
        if same_text(wanted.name.as_str(), "opencode") {
            let command = command_or_usual(wanted.command, default_opencode_command());
            return Ok(Harness::Opencode { command, allowlist: wanted.allowlist, credentials });
        }
        let called = cat2(names.base.as_str(), "-code");
        if same_text(wanted.name.as_str(), called.as_str()) {
            let command = command_or_usual(wanted.command, default_claude_code_command(&names));
            return Ok(
                Harness::ClaudeCode { names, command, allowlist: wanted.allowlist, credentials },
            );
        }
    }
    let definition = match found {
        Some(definition) => definition,
        None => return Err(unknown_message(wanted.name.as_str(), available)),
    };
    if wanted.allowlist.is_some() {
        return Err(
            cat3(
                "harness \"",
                wanted.name.as_str(),
                "\" does not support harness.allowlist; use harness.sandbox_config",
            ),
        );
    }
    let mut usual: Vec<String> = Vec::new();
    assert(texts(usual@) =~= Seq::empty());
    push_all(&mut usual, definition.command.as_slice());
    assert(texts(usual@) =~= texts(definition.command@));
    let selected = selection::Harness {
        name: wanted.name,
        command: command_or_usual(wanted.command, usual),
        sandbox_config: wanted.sandbox_config,
        credentials: wanted.credentials,
    };
    Ok(Harness::Defined { definition, selected })
}

impl Harness {
    pub open spec fn command_texts(&self) -> Seq<Seq<char>> {
        match self {
            Harness::Opencode { command, .. } => texts(command@),
            Harness::ClaudeCode { command, .. } => texts(command@),
            Harness::Defined { selected, .. } => texts(selected.command@),
        }
    }

    pub open spec fn name_text(&self) -> Seq<char> {
        match self {
            Harness::Opencode { .. } => "opencode"@,
            Harness::ClaudeCode { names, .. } => names@.base + "-code"@,
            Harness::Defined { definition, .. } => definition.name@,
        }
    }

    pub open spec fn install_text(&self) -> Seq<char> {
        match self {
            Harness::Opencode { .. } => "RUN npm install --global opencode-ai\n"@,
            Harness::ClaudeCode { names, .. } => "RUN npm install --global @anthropic-ai/"@
                + names@.base + "-code\n"@,
            Harness::Defined { definition, .. } => "RUN "@ + definition.install@ + "\n"@,
        }
    }

    pub open spec fn has_credentials(&self) -> bool {
        match self {
            Harness::Opencode { credentials, .. } => *credentials,
            Harness::ClaudeCode { credentials, .. } => *credentials,
            Harness::Defined { selected, .. } => selected.credentials,
        }
    }

    /// The permissions of the harness, as names with JSON trees.
    pub open spec fn permissions(&self) -> Option<Seq<(Seq<char>, JsonTree)>> {
        match self {
            Harness::Opencode { allowlist: Some(list), .. } => Some(member_trees(list@)),
            Harness::ClaudeCode { allowlist: Some(list), .. } => Some(member_trees(list@)),
            _ => None,
        }
    }

    /// The line of the container file that installs the harness.
    pub fn install(&self) -> (r: String)
        ensures
            r@ == self.install_text(),
    {
        match self {
            Harness::Opencode { .. } => "RUN npm install --global opencode-ai\n".to_owned(),
            Harness::ClaudeCode { names, .. } => cat3(
                "RUN npm install --global @anthropic-ai/",
                names.base.as_str(),
                "-code\n",
            ),
            Harness::Defined { definition, .. } => cat3(
                "RUN ",
                definition.install.as_str(),
                "\n",
            ),
        }
    }

    pub fn command(&self) -> (r: &Vec<String>)
        ensures
            texts(r@) == self.command_texts(),
    {
        match self {
            Harness::Opencode { command, .. } => command,
            Harness::ClaudeCode { command, .. } => command,
            Harness::Defined { selected, .. } => &selected.command,
        }
    }

    pub fn name(&self) -> (r: String)
        ensures
            r@ == self.name_text(),
    {
        match self {
            Harness::Opencode { .. } => "opencode".to_owned(),
            Harness::ClaudeCode { names, .. } => cat2(names.base.as_str(), "-code"),
            Harness::Defined { definition, .. } => definition.name.clone(),
        }
    }

    pub fn allowlist(&self) -> (r: Option<&Allowlist>)
        ensures
            (match r {
                Some(list) => self.permissions() == Some(member_trees(list@)),
                None => self.permissions() is None,
            }),
    {
        match self {
            Harness::Opencode { allowlist: Some(list), .. } => Some(list),
            Harness::ClaudeCode { allowlist: Some(list), .. } => Some(list),
            _ => None,
        }
    }

    pub fn credentials_enabled(&self) -> (r: bool)
        ensures
            r == self.has_credentials(),
    {
        match self {
            Harness::Opencode { credentials, .. } => *credentials,
            Harness::ClaudeCode { credentials, .. } => *credentials,
            Harness::Defined { selected, .. } => selected.credentials,
        }
    }

    /// OpenCode reads its configuration folder for credentials and for an
    /// allowlist.
    pub open spec fn needs_config(&self) -> bool {
        self is Opencode && (self.has_credentials() || self.permissions() is Some)
    }

    pub fn config_required(&self) -> (r: bool)
        ensures
            r == self.needs_config(),
    {
        match self {
            Harness::Opencode { allowlist, .. } => self.credentials_enabled()
                || allowlist.is_some(),
            _ => false,
        }
    }
}

pub open spec fn is_verdict(verdict: Seq<char>) -> bool {
    verdict == "allow"@ || verdict == "ask"@ || verdict == "deny"@
}

pub open spec fn verdict_complaint(verdict: Seq<char>) -> Seq<char> {
    "unsupported verdict \""@ + verdict + "\"; use \"allow\", \"ask\", or \"deny\""@
}

pub fn ensure_verdict(verdict: &str) -> (r: Result<(), String>)
    ensures
        r is Ok <==> is_verdict(verdict@),
        r matches Err(message) ==> message@ == verdict_complaint(verdict@),
{
    if same_text(verdict, "allow") || same_text(verdict, "ask") || same_text(verdict, "deny") {
        Ok(())
    } else {
        Err(
            cat3(
                "unsupported verdict \"",
                verdict,
                "\"; use \"allow\", \"ask\", or \"deny\"",
            ),
        )
    }
}

/// What is wrong with the verdict on one shell pattern.
pub open spec fn pattern_problem(pattern: Seq<char>, verdict: JsonTree) -> Option<FailureView> {
    match verdict {
        JsonTree::Text(text) => if is_verdict(text) {
            None
        } else {
            Some(
                FailureView {
                    message: "harness.allowlist.bash.\""@ + pattern + "\""@,
                    cause: Some(verdict_complaint(text)),
                },
            )
        },
        _ => Some(plain("harness.allowlist.bash.\""@ + pattern + "\" must be a string"@)),
    }
}

/// What is wrong with the first bad pattern.
pub open spec fn patterns_problem(patterns: Seq<(Seq<char>, JsonTree)>) -> Option<FailureView>
    decreases patterns.len(),
{
    if patterns.len() == 0 {
        None
    } else {
        match patterns_problem(patterns.drop_last()) {
            Some(problem) => Some(problem),
            None => pattern_problem(patterns.last().0, patterns.last().1),
        }
    }
}

/// What is wrong with one entry of a `ClaudeCode` allowlist.
pub open spec fn permission_problem(
    harness: Seq<char>,
    key: Seq<char>,
    value: JsonTree,
) -> Option<FailureView> {
    if key == "edit"@ {
        match value {
            JsonTree::Text(verdict) => if is_verdict(verdict) {
                None
            } else {
                Some(plain(verdict_complaint(verdict)))
            },
            _ => Some(
                plain("harness.allowlist.edit must be \"allow\", \"ask\", or \"deny\""@),
            ),
        }
    } else if key == "bash"@ {
        match value {
            JsonTree::Object(patterns) => patterns_problem(patterns),
            _ => Some(plain("harness.allowlist.bash must be a table of pattern = verdict"@)),
        }
    } else {
        Some(
            plain(
                "harness.allowlist key \""@ + key
                    + "\" is not supported by the "@ + harness
                    + " harness; supported keys are \"bash\" and \"edit\""@,
            ),
        )
    }
}

/// What is wrong with the first bad entry.
pub open spec fn permissions_problem(
    harness: Seq<char>,
    list: Seq<(Seq<char>, JsonTree)>,
) -> Option<FailureView>
    decreases list.len(),
{
    if list.len() == 0 {
        None
    } else {
        match permissions_problem(harness, list.drop_last()) {
            Some(problem) => Some(problem),
            None => permission_problem(harness, list.last().0, list.last().1),
        }
    }
}

proof fn lemma_problem_stays(harness: Seq<char>, list: Seq<(Seq<char>, JsonTree)>, n: int)
    requires
        0 <= n <= list.len(),
    ensures
        permissions_problem(harness, list.take(n)) is Some ==> permissions_problem(harness, list)
            == permissions_problem(harness, list.take(n)),
    decreases list.len() - n,
{
    if n == list.len() {
        assert(list.take(n) =~= list);
    } else {
        lemma_problem_stays(harness, list, n + 1);
        assert(list.take(n + 1).drop_last() =~= list.take(n));
    }
}

proof fn lemma_pattern_problem_stays(list: Seq<(Seq<char>, JsonTree)>, n: int)
    requires
        0 <= n <= list.len(),
    ensures
        patterns_problem(list.take(n)) is Some ==> patterns_problem(list) == patterns_problem(
            list.take(n),
        ),
    decreases list.len() - n,
{
    if n == list.len() {
        assert(list.take(n) =~= list);
    } else {
        lemma_pattern_problem_stays(list, n + 1);
        assert(list.take(n + 1).drop_last() =~= list.take(n));
    }
}

fn check_pattern(pattern: &str, verdict: &Json) -> (r: Result<(), Failure>)
    ensures
        (match r {
            Ok(_) => pattern_problem(pattern@, verdict@) is None,
            Err(failure) => pattern_problem(pattern@, verdict@) == Some(failure@),
        }),
{
    match verdict.as_text() {
        Some(text) => match ensure_verdict(text.as_str()) {
            Ok(_) => Ok(()),
            Err(complaint) => Err(
                Failure {
                    message: cat3("harness.allowlist.bash.\"", pattern, "\""),
                    cause: Some(complaint),
                },
            ),
        },
        None => Err(
            failure(cat3("harness.allowlist.bash.\"", pattern, "\" must be a string")),
        ),
    }
}

fn check_patterns(patterns: &Vec<(String, Json)>) -> (r: Result<(), Failure>)
    ensures
        (match r {
            Ok(_) => patterns_problem(member_trees(patterns@)) is None,
            Err(failure) => patterns_problem(member_trees(patterns@)) == Some(failure@),
        }),
{
    let ghost all = member_trees(patterns@);
    let mut i: usize = 0;
    assert(all.take(0) =~= Seq::empty());
    while i < patterns.len()
        invariant
            i <= patterns@.len(),
            all == member_trees(patterns@),
            patterns_problem(all.take(i as int)) is None,
        decreases patterns@.len() - i,
    {
        proof {
            assert(all.take(i + 1).drop_last() =~= all.take(i as int));
            assert(all.take(i + 1).last() == all[i as int]);
            lemma_pattern_problem_stays(all, i + 1);
        }
        check_pattern(patterns[i].0.as_str(), &patterns[i].1)?;
        i += 1;
    }
    assert(all.take(i as int) =~= all);
    Ok(())
}

fn check_permission(harness: &str, key: &str, value: &Json) -> (r: Result<(), Failure>)
    ensures
        (match r {
            Ok(_) => permission_problem(harness@, key@, value@) is None,
            Err(failure) => permission_problem(harness@, key@, value@) == Some(failure@),
        }),
{
    broadcast use lemma_object_tree;

    if same_text(key, "edit") {
        match value {
            Json::Text(verdict) => match ensure_verdict(verdict.as_str()) {
                Ok(_) => Ok(()),
                Err(complaint) => Err(failure(complaint)),
            },
            _ => Err(failed("harness.allowlist.edit must be \"allow\", \"ask\", or \"deny\"")),
        }
    } else if same_text(key, "bash") {
        match value {
            Json::Object(patterns) => check_patterns(patterns),
            _ => Err(failed("harness.allowlist.bash must be a table of pattern = verdict")),
        }
    } else {
        Err(
            failure(
                cat5(
                    "harness.allowlist key \"",
                    key,
                    "\" is not supported by the ",
                    harness,
                    " harness; supported keys are \"bash\" and \"edit\"",
                ),
            ),
        )
    }
}

impl Harness {
    /// What is wrong with the harness settings. OpenCode takes any allowlist.
    pub open spec fn problem(&self) -> Option<FailureView> {
        match self {
            Harness::ClaudeCode { allowlist: Some(list), .. } => permissions_problem(
                self.name_text(),
                member_trees(list@),
            ),
            Harness::Defined { definition, .. } => match sink_problem(definition@) {
                Some(message) => Some(plain(message)),
                None => None,
            },
            _ => None,
        }
    }

    pub fn validate(&self) -> (r: Result<(), Failure>)
        ensures
            (match r {
                Ok(_) => self.problem() is None,
                Err(failure) => self.problem() == Some(failure@),
            }),
    {
        match self {
            Harness::ClaudeCode { allowlist: Some(list), .. } => {
                let harness = self.name();
                let ghost all = member_trees(list@);
                let mut i: usize = 0;
                assert(all.take(0) =~= Seq::empty());
                while i < list.len()
                    invariant
                        self.problem() == permissions_problem(harness@, all),
                        i <= list@.len(),
                        all == member_trees(list@),
                        permissions_problem(harness@, all.take(i as int)) is None,
                    decreases list@.len() - i,
                {
                    proof {
                        assert(all.take(i + 1).drop_last() =~= all.take(i as int));
                        assert(all.take(i + 1).last() == all[i as int]);
                        lemma_problem_stays(harness@, all, i + 1);
                    }
                    check_permission(harness.as_str(), list[i].0.as_str(), &list[i].1)?;
                    i += 1;
                }
                assert(all.take(i as int) =~= all);
                Ok(())
            },
            Harness::Defined { definition, .. } => match validate_sink(definition) {
                Ok(_) => Ok(()),
                Err(message) => Err(failure(message)),
            },
            _ => Ok(()),
        }
    }
}

/// A directory of the host, or a complaint that it cannot be determined.
pub open spec fn require_dir(dir: Option<String>, what: Seq<char>) -> Result<Seq<char>, Seq<char>> {
    match dir {
        Some(path) => Ok(path@),
        None => Err("cannot determine "@ + what + " directory"@),
    }
}

fn dir_below(dir: &Option<String>, what: &str, relative: &str) -> (r: Result<String, String>)
    ensures
        (match r {
            Ok(path) => require_dir(*dir, what@) is Ok && path@ == path_join(
                require_dir(*dir, what@)->Ok_0,
                relative@,
            ),
            Err(message) => require_dir(*dir, what@) == Err::<Seq<char>, Seq<char>>(message@),
        }),
{
    match dir {
        Some(path) => Ok(join_path(path.as_str(), relative)),
        None => Err(cat3("cannot determine ", what, " directory")),
    }
}

/// The path of `relative` below the host directory for application data.
pub fn data_path(dirs: &HostDirs, relative: &str) -> (r: Result<String, String>)
    ensures
        (match r {
            Ok(path) => dirs.data is Some && path@ == path_join(dirs.data->Some_0@, relative@),
            Err(message) => dirs.data is None && message@ == "cannot determine "@ + "harness data"@
                + " directory"@,
        }),
{
    dir_below(&dirs.data, "harness data", relative)
}

/// The path of `relative` below the host directory for application state.
pub fn state_path(dirs: &HostDirs, relative: &str) -> (r: Result<String, String>)
    ensures
        (match r {
            Ok(path) => dirs.state is Some && path@ == path_join(dirs.state->Some_0@, relative@),
            Err(message) => dirs.state is None && message@ == "cannot determine "@
                + "harness state"@ + " directory"@,
        }),
{
    dir_below(&dirs.state, "harness state", relative)
}

/// The path of `relative` below the host user's home.
pub fn home_path(dirs: &HostDirs, relative: &str) -> (r: Result<String, String>)
    ensures
        (match r {
            Ok(path) => dirs.home is Some && path@ == path_join(dirs.home->Some_0@, relative@),
            Err(message) => dirs.home is None && message@ == "cannot determine "@ + "home"@
                + " directory"@,
        }),
{
    dir_below(&dirs.home, "home", relative)
}

pub open spec fn agent_path(below: Seq<char>) -> Seq<char> {
    AGENT_HOME@ + below
}

fn in_agent_home(below: &str) -> (r: String)
    ensures
        r@ == agent_path(below@),
{
    cat2(AGENT_HOME, below)
}

pub open spec fn content(host: Seq<char>, below: Seq<char>, access: Access) -> ContentEntryView {
    ContentEntryView { host, target: agent_path(below), access }
}

fn content_entry(host: String, below: &str, access: Access) -> (r: ContentEntry)
    ensures
        r@ == content(host@, below@, access),
{
    ContentEntry { host, target: in_agent_home(below), access }
}

/// The files that OpenCode keeps on the host: its credentials read-only, its
/// database and its small state files read-write.
pub open spec fn opencode_content(
    home: Seq<char>,
    data: Seq<char>,
    state: Seq<char>,
) -> Seq<ContentEntryView> {
    seq![
        content(
            path_join(home, ".local/share/opencode/auth.json"@),
            "/.local/share/opencode/auth.json"@,
            Access::ReadOnly,
        ),
        content(
            path_join(path_join(data, "opencode"@), "opencode.db"@),
            "/.local/share/opencode/opencode.db"@,
            Access::Pinned,
        ),
        content(
            path_join(path_join(data, "opencode"@), "opencode.db-wal"@),
            "/.local/share/opencode/opencode.db-wal"@,
            Access::Pinned,
        ),
        content(
            path_join(path_join(data, "opencode"@), "opencode.db-shm"@),
            "/.local/share/opencode/opencode.db-shm"@,
            Access::Pinned,
        ),
        content(
            path_join(path_join(state, "opencode"@), "kv.json"@),
            "/.local/state/opencode/kv.json"@,
            Access::Pinned,
        ),
        content(
            path_join(path_join(state, "opencode"@), "session.json"@),
            "/.local/state/opencode/session.json"@,
            Access::Pinned,
        ),
        content(
            path_join(path_join(state, "opencode"@), "model.json"@),
            "/.local/state/opencode/model.json"@,
            Access::Pinned,
        ),
        content(
            path_join(path_join(state, "opencode"@), "prompt-history.jsonl"@),
            "/.local/state/opencode/prompt-history.jsonl"@,
            Access::Pinned,
        ),
    ]
}

/// Everything that OpenCode writes and does not keep goes to memory.
pub open spec fn opencode_tmpfs() -> Seq<Seq<char>> {
    tmpfs_args(agent_path("/.local/share/opencode"@)) + tmpfs_args(
        agent_path("/.local/state/opencode"@),
    ) + tmpfs_args(agent_path("/.cache"@)) + tmpfs_args(agent_path("/.serena"@))
}

/// A read-only mount, where the host has the source.
pub open spec fn optional_mount(
    source: Seq<char>,
    target: Seq<char>,
    present: Seq<Seq<char>>,
) -> Seq<Seq<char>> {
    if present.contains(source) {
        volume_args(source, target, true)
    } else {
        Seq::empty()
    }
}

/// Mounts `source` read-only, where the host has it.
fn mount_if_exists(args: &mut Vec<String>, source: &str, target: &str, present: &[String])
    ensures
        texts(final(args)@) == texts(old(args)@) + optional_mount(
            source@,
            target@,
            texts(present@),
        ),
{
    if lists(present, source) {
        push_volume(args, source, target, true);
    } else {
        assert(texts(args@) + Seq::<Seq<char>>::empty() =~= texts(args@));
    }
}

/// The mounts of an OpenCode session.
pub open spec fn opencode_plan(
    home: Seq<char>,
    data: Seq<char>,
    state: Seq<char>,
    credentials: bool,
    config: bool,
    present: Seq<Seq<char>>,
) -> MountPlanView {
    let content = opencode_content(home, data, state);
    MountPlanView {
        prepare: entries_prepares(content),
        args: opencode_tmpfs() + entries_args(content, credentials, present) + (if config {
            optional_mount(
                path_join(home, ".config/opencode"@),
                agent_path("/.config/opencode"@),
                present,
            )
        } else {
            Seq::empty()
        }),
    }
}

/// The personal configuration of `ClaudeCode` that travels into sessions.
pub open spec fn claude_config_paths(names: NamesView) -> Seq<Seq<char>> {
    seq![
        names.memory,
        "keybindings.json"@,
        "skills"@,
        "agents"@,
        "commands"@,
        "rules"@,
        "output-styles"@,
        "themes"@,
        "workflows"@,
    ]
}

fn claude_config_list(names: &Names) -> (r: Vec<String>)
    ensures
        texts(r@) == claude_config_paths(names@),
{
    let r = vec![
        names.memory.clone(),
        "keybindings.json".to_owned(),
        "skills".to_owned(),
        "agents".to_owned(),
        "commands".to_owned(),
        "rules".to_owned(),
        "output-styles".to_owned(),
        "themes".to_owned(),
        "workflows".to_owned(),
    ];
    assert(texts(r@) =~= claude_config_paths(names@));
    r
}

/// The directory that the harness keeps in a home directory.
pub open spec fn hidden(base: Seq<char>) -> Seq<char> {
    "."@ + base
}

/// `rest` behind that directory's name, below a home directory.
pub open spec fn in_hidden(base: Seq<char>, rest: Seq<char>) -> Seq<char> {
    "/."@ + base + rest
}

/// The same below the agent's home directory.
fn in_agent_hidden(base: &str, rest: &str) -> (r: String)
    ensures
        r@ == agent_path(in_hidden(base@, rest@)),
{
    let below = cat3("/.", base, rest);
    in_agent_home(below.as_str())
}

/// The read-only mounts of those of `paths` that the host has in `claude_dir`.
pub open spec fn claude_config_mounts(
    base: Seq<char>,
    paths: Seq<Seq<char>>,
    claude_dir: Seq<char>,
    present: Seq<Seq<char>>,
) -> Seq<Seq<char>>
    decreases paths.len(),
{
    if paths.len() == 0 {
        Seq::empty()
    } else {
        claude_config_mounts(base, paths.drop_last(), claude_dir, present) + optional_mount(
            path_join(claude_dir, paths.last()),
            agent_path(in_hidden(base, "/"@ + paths.last())),
            present,
        )
    }
}

/// The files that `ClaudeCode` keeps on the host.
pub open spec fn claude_content(
    base: Seq<char>,
    claude_dir: Seq<char>,
    data: Seq<char>,
) -> Seq<ContentEntryView> {
    seq![
        content(
            path_join(claude_dir, ".credentials.json"@),
            in_hidden(base, "/.credentials.json"@),
            Access::ReadOnly,
        ),
        content(path_join(data, base + ".json"@), in_hidden(base, ".json"@), Access::Pinned),
        content(path_join(data, "projects"@), in_hidden(base, "/projects"@), Access::PinnedDir),
        content(
            path_join(data, "history.jsonl"@),
            in_hidden(base, "/history.jsonl"@),
            Access::Pinned,
        ),
    ]
}

pub open spec fn claude_tmpfs(base: Seq<char>) -> Seq<Seq<char>> {
    tmpfs_args(agent_path(in_hidden(base, "/todos"@))) + tmpfs_args(
        agent_path(in_hidden(base, "/shell-snapshots"@)),
    ) + tmpfs_args(agent_path(in_hidden(base, "/statsig"@)))
}

/// Where the settings of one session are written.
pub open spec fn settings_location(
    base: Seq<char>,
    runtime_base: Seq<char>,
    session_id: Seq<char>,
) -> Seq<char> {
    path_join(path_join(runtime_base, session_id), base + "-settings.json"@)
}

pub fn settings_path(names: &Names, runtime_base: &str, session_id: &str) -> (r: String)
    ensures
        r@ == settings_location(names@.base, runtime_base@, session_id@),
{
    let directory = join_path(runtime_base, session_id);
    let file = cat2(names.base.as_str(), "-settings.json");
    join_path(directory.as_str(), file.as_str())
}

/// The mounts of a `ClaudeCode` session. `settings` is the file generated for
/// the session, where there is one.
pub open spec fn claude_plan(
    names: NamesView,
    home: Seq<char>,
    data_dir: Seq<char>,
    settings: Option<Seq<char>>,
    credentials: bool,
    present: Seq<Seq<char>>,
) -> MountPlanView {
    let claude_dir = path_join(home, hidden(names.base));
    let content = claude_content(
        names.base,
        claude_dir,
        path_join(data_dir, names.base + "-code"@),
    );
    MountPlanView {
        prepare: entries_prepares(content),
        args: claude_tmpfs(names.base) + entries_args(content, credentials, present) + (
        match settings {
            Some(path) => volume_args(
                path,
                agent_path(in_hidden(names.base, "/settings.json"@)),
                true,
            ),
            None => Seq::empty(),
        }) + claude_config_mounts(names.base, claude_config_paths(names), claude_dir, present),
    }
}

fn mount_claude_config(
    args: &mut Vec<String>,
    names: &Names,
    claude_dir: &str,
    present: &[String],
)
    ensures
        texts(final(args)@) == texts(old(args)@) + claude_config_mounts(
            names@.base,
            claude_config_paths(names@),
            claude_dir@,
            texts(present@),
        ),
{
    let paths = claude_config_list(names);
    let ghost all = claude_config_paths(names@);
    let ghost start = texts(args@);
    let mut i: usize = 0;
    assert(all.take(0) =~= Seq::empty());
    assert(start + Seq::<Seq<char>>::empty() =~= start);
    while i < paths.len()
        invariant
            i <= paths@.len(),
            all == texts(paths@),
            texts(args@) == start + claude_config_mounts(
                names@.base,
                all.take(i as int),
                claude_dir@,
                texts(present@),
            ),
        decreases paths@.len() - i,
    {
        let path = paths[i].as_str();
        let source = join_path(claude_dir, path);
        let below = cat2("/", path);
        let target = in_agent_hidden(names.base.as_str(), below.as_str());
        let ghost so_far = claude_config_mounts(
            names@.base,
            all.take(i as int),
            claude_dir@,
            texts(present@),
        );
        mount_if_exists(args, source.as_str(), target.as_str(), present);
        proof {
            assert(all.take(i + 1).drop_last() =~= all.take(i as int));
            assert(all.take(i + 1).last() == path@);
            let more = optional_mount(source@, target@, texts(present@));
            assert((start + so_far) + more =~= start + (so_far + more));
        }
        i += 1;
    }
    assert(all.take(i as int) =~= all);
}

impl Harness {
    /// The mounts of a session, or the directory that the host lacks. Those of
    /// a defined harness are not among them: its definition lists them, and
    /// `Site::apply_mounts` plans them.
    pub open spec fn mount_outcome(
        &self,
        dirs: HostDirs,
        settings: Seq<char>,
        present: Seq<Seq<char>>,
    ) -> Result<MountPlanView, Seq<char>> {
        match self {
            Harness::Opencode { .. } => if dirs.data is None {
                Err("cannot determine "@ + "harness data"@ + " directory"@)
            } else if dirs.state is None {
                Err("cannot determine "@ + "harness state"@ + " directory"@)
            } else if dirs.home is None {
                Err("cannot determine "@ + "home"@ + " directory"@)
            } else {
                Ok(
                    opencode_plan(
                        dirs.home->Some_0@,
                        dirs.data->Some_0@,
                        dirs.state->Some_0@,
                        self.has_credentials(),
                        self.needs_config(),
                        present,
                    ),
                )
            },
            Harness::ClaudeCode { names, .. } => if dirs.home is None {
                Err("cannot determine "@ + "home"@ + " directory"@)
            } else if dirs.data is None {
                Err("cannot determine "@ + "harness data"@ + " directory"@)
            } else {
                Ok(
                    claude_plan(
                        names@,
                        dirs.home->Some_0@,
                        dirs.data->Some_0@,
                        if self.permissions() is Some {
                            Some(settings)
                        } else {
                            None
                        },
                        self.has_credentials(),
                        present,
                    ),
                )
            },
            Harness::Defined { .. } => Ok(
                MountPlanView { prepare: Seq::empty(), args: Seq::empty() },
            ),
        }
    }

    /// Plans the mounts of a session. `settings` is where the session's
    /// generated settings are, and `present` lists the host paths that exist.
    pub fn mount(&self, dirs: &HostDirs, settings: &str, present: &[String]) -> (r: Result<
        MountPlan,
        String,
    >)
        ensures
            (match r {
                Ok(plan) => self.mount_outcome(*dirs, settings@, texts(present@)) == Ok::<
                    MountPlanView,
                    Seq<char>,
                >(plan@),
                Err(message) => self.mount_outcome(*dirs, settings@, texts(present@)) == Err::<
                    MountPlanView,
                    Seq<char>,
                >(message@),
            }),
    {
        match self {
            Harness::Opencode { .. } => self.mount_opencode(dirs, present),
            Harness::ClaudeCode { names, .. } => self.mount_claude_code(
                names,
                dirs,
                settings,
                present,
            ),
            Harness::Defined { .. } => {
                let plan = MountPlan { prepare: Vec::new(), args: Vec::new() };
                assert(plan@.prepare =~= Seq::empty());
                assert(plan@.args =~= Seq::empty());
                Ok(plan)
            },
        }
    }

    fn mount_opencode(&self, dirs: &HostDirs, present: &[String]) -> (r: Result<MountPlan, String>)
        requires
            self is Opencode,
        ensures
            (match r {
                Ok(plan) => self.mount_outcome(*dirs, Seq::empty(), texts(present@)) == Ok::<
                    MountPlanView,
                    Seq<char>,
                >(plan@),
                Err(message) => self.mount_outcome(*dirs, Seq::empty(), texts(present@)) == Err::<
                    MountPlanView,
                    Seq<char>,
                >(message@),
            }),
    {
        let data = data_path(dirs, "opencode")?;
        let state = state_path(dirs, "opencode")?;
        let config = home_path(dirs, ".config/opencode")?;
        let credentials = home_path(dirs, ".local/share/opencode/auth.json")?;

        let mut plan = MountPlan { prepare: Vec::new(), args: Vec::new() };
        push_tmpfs(&mut plan.args, in_agent_home("/.local/share/opencode").as_str());
        push_tmpfs(&mut plan.args, in_agent_home("/.local/state/opencode").as_str());
        push_tmpfs(&mut plan.args, in_agent_home("/.cache").as_str());
        push_tmpfs(&mut plan.args, in_agent_home("/.serena").as_str());
        assert(plan@.args =~= opencode_tmpfs());

        let list = vec![
            content_entry(credentials, "/.local/share/opencode/auth.json", Access::ReadOnly),
            content_entry(
                join_path(data.as_str(), "opencode.db"),
                "/.local/share/opencode/opencode.db",
                Access::Pinned,
            ),
            content_entry(
                join_path(data.as_str(), "opencode.db-wal"),
                "/.local/share/opencode/opencode.db-wal",
                Access::Pinned,
            ),
            content_entry(
                join_path(data.as_str(), "opencode.db-shm"),
                "/.local/share/opencode/opencode.db-shm",
                Access::Pinned,
            ),
            content_entry(
                join_path(state.as_str(), "kv.json"),
                "/.local/state/opencode/kv.json",
                Access::Pinned,
            ),
            content_entry(
                join_path(state.as_str(), "session.json"),
                "/.local/state/opencode/session.json",
                Access::Pinned,
            ),
            content_entry(
                join_path(state.as_str(), "model.json"),
                "/.local/state/opencode/model.json",
                Access::Pinned,
            ),
            content_entry(
                join_path(state.as_str(), "prompt-history.jsonl"),
                "/.local/state/opencode/prompt-history.jsonl",
                Access::Pinned,
            ),
        ];
        let ghost wanted = opencode_content(
            dirs.home->Some_0@,
            dirs.data->Some_0@,
            dirs.state->Some_0@,
        );
        assert(entries(list@) =~= wanted);
        assert(plan@.prepare =~= Seq::empty());
        apply_content_entries(&mut plan, &list, self.credentials_enabled(), present);
        assert(plan@.prepare =~= entries_prepares(wanted));

        if self.config_required() {
            mount_if_exists(
                &mut plan.args,
                config.as_str(),
                in_agent_home("/.config/opencode").as_str(),
                present,
            );
        } else {
            assert(plan@.args + Seq::<Seq<char>>::empty() =~= plan@.args);
        }
        Ok(plan)
    }

    fn mount_claude_code(
        &self,
        names: &Names,
        dirs: &HostDirs,
        settings: &str,
        present: &[String],
    ) -> (r: Result<MountPlan, String>)
        requires
            self matches Harness::ClaudeCode { names: own, .. } && own@ == names@,
        ensures
            (match r {
                Ok(plan) => self.mount_outcome(*dirs, settings@, texts(present@)) == Ok::<
                    MountPlanView,
                    Seq<char>,
                >(plan@),
                Err(message) => self.mount_outcome(*dirs, settings@, texts(present@)) == Err::<
                    MountPlanView,
                    Seq<char>,
                >(message@),
            }),
    {
        let base = names.base.as_str();
        let claude_dir = home_path(dirs, cat2(".", base).as_str())?;
        let data = data_path(dirs, cat2(base, "-code").as_str())?;

        let mut plan = MountPlan { prepare: Vec::new(), args: Vec::new() };
        push_tmpfs(&mut plan.args, in_agent_hidden(base, "/todos").as_str());
        push_tmpfs(&mut plan.args, in_agent_hidden(base, "/shell-snapshots").as_str());
        push_tmpfs(&mut plan.args, in_agent_hidden(base, "/statsig").as_str());
        assert(plan@.args =~= claude_tmpfs(base@));

        let list = vec![
            content_entry(
                join_path(claude_dir.as_str(), ".credentials.json"),
                cat3("/.", base, "/.credentials.json").as_str(),
                Access::ReadOnly,
            ),
            content_entry(
                join_path(data.as_str(), cat2(base, ".json").as_str()),
                cat3("/.", base, ".json").as_str(),
                Access::Pinned,
            ),
            content_entry(
                join_path(data.as_str(), "projects"),
                cat3("/.", base, "/projects").as_str(),
                Access::PinnedDir,
            ),
            content_entry(
                join_path(data.as_str(), "history.jsonl"),
                cat3("/.", base, "/history.jsonl").as_str(),
                Access::Pinned,
            ),
        ];
        let ghost wanted = claude_content(base@, claude_dir@, data@);
        assert(entries(list@) =~= wanted);
        assert(plan@.prepare =~= Seq::empty());
        apply_content_entries(&mut plan, &list, self.credentials_enabled(), present);
        assert(plan@.prepare =~= entries_prepares(wanted));

        if self.allowlist().is_some() {
            push_volume(
                &mut plan.args,
                settings,
                in_agent_hidden(base, "/settings.json").as_str(),
                true,
            );
        } else {
            assert(plan@.args + Seq::<Seq<char>>::empty() =~= plan@.args);
        }
        mount_claude_config(&mut plan.args, names, claude_dir.as_str(), present);
        Ok(plan)
    }
}

/// Whether a host path decides about one of the harness's mounts.
pub open spec fn probed(harness: &Harness, dirs: HostDirs) -> Seq<Seq<char>> {
    match dirs.home {
        None => Seq::empty(),
        Some(home) => match harness {
            Harness::Opencode { .. } => seq![
                path_join(home@, ".local/share/opencode/auth.json"@),
                path_join(home@, ".config/opencode"@),
            ],
            Harness::ClaudeCode { names, .. } => seq![
                path_join(path_join(home@, hidden(names@.base)), ".credentials.json"@),
            ] + below_each(path_join(home@, hidden(names@.base)), claude_config_paths(names@)),
            Harness::Defined { .. } => Seq::empty(),
        },
    }
}

/// Each of `names` below `dir`.
pub open spec fn below_each(dir: Seq<char>, names: Seq<Seq<char>>) -> Seq<Seq<char>> {
    Seq::new(names.len(), |i: int| path_join(dir, names[i]))
}

impl Harness {
    /// The host paths whose existence decides about a mount.
    pub fn probes(&self, dirs: &HostDirs) -> (r: Vec<String>)
        ensures
            texts(r@) == probed(self, *dirs),
    {
        broadcast use lemma_texts_push;

        let mut out: Vec<String> = Vec::new();
        assert(texts(out@) =~= Seq::empty());
        let home = match &dirs.home {
            None => return out,
            Some(home) => home,
        };
        match self {
            Harness::Opencode { .. } => {
                out.push(join_path(home.as_str(), ".local/share/opencode/auth.json"));
                out.push(join_path(home.as_str(), ".config/opencode"));
                assert(texts(out@) =~= probed(self, *dirs));
            },
            Harness::ClaudeCode { names, .. } => {
                let claude_dir = join_path(home.as_str(), cat2(".", names.base.as_str()).as_str());
                out.push(join_path(claude_dir.as_str(), ".credentials.json"));
                let paths = claude_config_list(names);
                let ghost first = texts(out@);
                let mut i: usize = 0;
                assert(texts(out@) =~= first + below_each(claude_dir@, texts(paths@)).take(0));
                while i < paths.len()
                    invariant
                        i <= paths@.len(),
                        texts(out@) == first + below_each(claude_dir@, texts(paths@)).take(
                            i as int,
                        ),
                    decreases paths@.len() - i,
                {
                    broadcast use lemma_texts_push;

                    out.push(join_path(claude_dir.as_str(), paths[i].as_str()));
                    i += 1;
                    assert(texts(out@) =~= first + below_each(claude_dir@, texts(paths@)).take(
                        i as int,
                    ));
                }
                assert(texts(out@) =~= probed(self, *dirs));
            },
            Harness::Defined { .. } => {},
        }
        out
    }
}

/// The entries that hold no credentials: all but the read-only ones.
pub open spec fn without_secrets(list: Seq<ContentEntryView>) -> Seq<ContentEntryView>
    decreases list.len(),
{
    if list.len() == 0 {
        Seq::empty()
    } else if list.last().access == Access::ReadOnly {
        without_secrets(list.drop_last())
    } else {
        without_secrets(list.drop_last()).push(list.last())
    }
}

/// Without the user's consent, a session is given what it would be given if
/// the harness kept no credentials at all.
pub proof fn lemma_credentials_need_consent(
    list: Seq<ContentEntryView>,
    credentials: bool,
    present: Seq<Seq<char>>,
)
    ensures
        entries_args(list, false, present) == entries_args(
            without_secrets(list),
            credentials,
            present,
        ),
        entries_prepares(list) == entries_prepares(without_secrets(list)),
    decreases list.len(),
{
    if list.len() > 0 {
        let front = list.drop_last();
        lemma_credentials_need_consent(front, credentials, present);
        let kept = without_secrets(front);
        if list.last().access == Access::ReadOnly {
            assert(entries_args(list, false, present) =~= entries_args(front, false, present));
            assert(entries_prepares(list) =~= entries_prepares(front));
        } else {
            assert(kept.push(list.last()).drop_last() =~= kept);
        }
    }
}

/// Of all that the host may hold, only the probed paths decide about a mount.
pub proof fn lemma_probes_decide(
    harness: &Harness,
    dirs: HostDirs,
    settings: Seq<char>,
    present: Seq<Seq<char>>,
    other: Seq<Seq<char>>,
)
    requires
        forall|path: Seq<char>|
            #[trigger] probed(harness, dirs).contains(path) ==> present.contains(path)
                == other.contains(path),
    ensures
        harness.mount_outcome(dirs, settings, present) == harness.mount_outcome(
            dirs,
            settings,
            other,
        ),
{
    if dirs.home is Some {
        let home = dirs.home->Some_0@;
        let asked = probed(harness, dirs);
        match harness {
            Harness::Opencode { .. } => {
                assert(asked.contains(asked[0]) && asked.contains(asked[1]));
                if dirs.data is Some && dirs.state is Some {
                    let list = opencode_content(home, dirs.data->Some_0@, dirs.state->Some_0@);
                    lemma_entries_args_agree(list, harness.has_credentials(), present, other);
                }
            },
            Harness::ClaudeCode { names, .. } => {
                assert(asked.contains(asked[0]));
                let claude_dir = path_join(home, hidden(names@.base));
                let paths = claude_config_paths(names@);
                if dirs.data is Some {
                    let list = claude_content(
                        names@.base,
                        claude_dir,
                        path_join(dirs.data->Some_0@, names@.base + "-code"@),
                    );
                    lemma_entries_args_agree(list, harness.has_credentials(), present, other);
                }
                assert forall|i: int| 0 <= i < paths.len() implies present.contains(
                    path_join(claude_dir, #[trigger] paths[i]),
                ) == other.contains(path_join(claude_dir, paths[i])) by {
                    assert(asked[i + 1] == path_join(claude_dir, paths[i]));
                    assert(asked.contains(asked[i + 1]));
                }
                lemma_config_mounts_agree(names@.base, paths, claude_dir, present, other);
            },
            Harness::Defined { .. } => {},
        }
    }
}

proof fn lemma_entries_args_agree(
    list: Seq<ContentEntryView>,
    credentials: bool,
    present: Seq<Seq<char>>,
    other: Seq<Seq<char>>,
)
    requires
        forall|i: int|
            0 <= i < list.len() && (#[trigger] list[i]).access == Access::ReadOnly
                ==> present.contains(list[i].host) == other.contains(list[i].host),
    ensures
        entries_args(list, credentials, present) == entries_args(list, credentials, other),
    decreases list.len(),
{
    if list.len() > 0 {
        let front = list.drop_last();
        assert forall|i: int|
            0 <= i < front.len() && (#[trigger] front[i]).access
                == Access::ReadOnly implies present.contains(front[i].host) == other.contains(
            front[i].host,
        ) by {
            assert(front[i] == list[i]);
        }
        lemma_entries_args_agree(front, credentials, present, other);
        assert(list.last() == list[list.len() - 1]);
    }
}

proof fn lemma_config_mounts_agree(
    base: Seq<char>,
    paths: Seq<Seq<char>>,
    claude_dir: Seq<char>,
    present: Seq<Seq<char>>,
    other: Seq<Seq<char>>,
)
    requires
        forall|i: int|
            0 <= i < paths.len() ==> present.contains(path_join(claude_dir, #[trigger] paths[i]))
                == other.contains(path_join(claude_dir, paths[i])),
    ensures
        claude_config_mounts(base, paths, claude_dir, present) == claude_config_mounts(
            base,
            paths,
            claude_dir,
            other,
        ),
    decreases paths.len(),
{
    if paths.len() > 0 {
        let front = paths.drop_last();
        assert forall|i: int| 0 <= i < front.len() implies present.contains(
            path_join(claude_dir, #[trigger] front[i]),
        ) == other.contains(path_join(claude_dir, front[i])) by {
            assert(front[i] == paths[i]);
        }
        lemma_config_mounts_agree(base, front, claude_dir, present, other);
        assert(paths.last() == paths[paths.len() - 1]);
    }
}

/// The words that warn of a session without credentials.
pub open spec fn keychain_warning(names: NamesView, file: Seq<char>) -> Seq<char> {
    "warning: "@ + names.title
        + " stores OAuth credentials in the macOS Keychain, which cannot be\nmounted into this sandbox; the session will start unauthenticated. Fix with either:\n  security find-generic-password -s \""@
        + names.title + "-credentials\" -w > '"@ + file + "' && chmod 600 '"@ + file
        + "'\n  or run `"@ + names.base
        + " setup-token` and put CLAUDE_CODE_OAUTH_TOKEN under [environment]"@
}

/// A macOS host keeps the credentials of `ClaudeCode` in its Keychain, so that the
/// file that sessions mount may be missing.
pub fn macos_credentials_warning(
    names: &Names,
    is_macos: bool,
    credentials_file: &str,
    file_there: bool,
) -> (r: Option<String>)
    ensures
        (match r {
            Some(text) => is_macos && !file_there && text@ == keychain_warning(
                names@,
                credentials_file@,
            ),
            None => !is_macos || file_there,
        }),
{
    if !is_macos || file_there {
        return None;
    }
    let trouble = cat5(
        "warning: ",
        names.title.as_str(),
        " stores OAuth credentials in the macOS Keychain, which cannot be\nmounted into this sandbox; the session will start unauthenticated. Fix with either:\n  security find-generic-password -s \"",
        names.title.as_str(),
        "-credentials\" -w > '",
    );
    let text = cat7(
        trouble.as_str(),
        credentials_file,
        "' && chmod 600 '",
        credentials_file,
        "'\n  or run `",
        names.base.as_str(),
        " setup-token` and put CLAUDE_CODE_OAUTH_TOKEN under [environment]",
    );
    Some(text)
}

impl Harness {
    /// The file from which a `ClaudeCode` session that wants credentials takes
    /// them.
    pub open spec fn credentials_file(&self, dirs: HostDirs) -> Option<Seq<char>> {
        match (self, dirs.home) {
            (Harness::ClaudeCode { names, .. }, Some(home)) => if self.has_credentials() {
                Some(path_join(path_join(home@, hidden(names@.base)), ".credentials.json"@))
            } else {
                None
            },
            _ => None,
        }
    }

    /// The warning before a `ClaudeCode` session that wants credentials which
    /// the host keeps elsewhere.
    pub fn credentials_warning(&self, is_macos: bool, dirs: &HostDirs, present: &[String]) -> (r:
        Option<String>)
        ensures
            (match r {
                Some(text) => is_macos && self.credentials_file(*dirs) is Some && !texts(
                    present@,
                ).contains(self.credentials_file(*dirs)->Some_0) && text@ == keychain_warning(
                    self->names@,
                    self.credentials_file(*dirs)->Some_0,
                ),
                None => !is_macos || match self.credentials_file(*dirs) {
                    Some(file) => texts(present@).contains(file),
                    None => true,
                },
            }),
    {
        match self {
            Harness::Opencode { .. } => None,
            Harness::Defined { .. } => None,
            Harness::ClaudeCode { names, .. } => match &dirs.home {
                None => None,
                Some(home) => {
                    let claude_dir = join_path(
                        home.as_str(),
                        cat2(".", names.base.as_str()).as_str(),
                    );
                    let file = join_path(claude_dir.as_str(), ".credentials.json");
                    if self.credentials_enabled() {
                        macos_credentials_warning(
                            names,
                            is_macos,
                            file.as_str(),
                            lists(present, file.as_str()),
                        )
                    } else {
                        None
                    }
                },
            },
        }
    }
}

/// The rule of a shell pattern that carries `verdict`.
pub open spec fn bash_rule(
    pattern: Seq<char>,
    given: JsonTree,
    verdict: Seq<char>,
) -> Seq<JsonTree> {
    if given == JsonTree::Text(verdict) {
        seq![JsonTree::Text("Bash("@ + pattern + ")"@)]
    } else {
        Seq::empty()
    }
}

pub open spec fn bash_rules(patterns: Seq<(Seq<char>, JsonTree)>, verdict: Seq<char>) -> Seq<
    JsonTree,
>
    decreases patterns.len(),
{
    if patterns.len() == 0 {
        Seq::empty()
    } else {
        bash_rules(patterns.drop_last(), verdict) + bash_rule(
            patterns.last().0,
            patterns.last().1,
            verdict,
        )
    }
}

/// The rules to which an allowlist gives `verdict`: the edit verdict covers
/// two tools, and each shell pattern has a rule of its own.
pub open spec fn rules_for(allowlist: Seq<(Seq<char>, JsonTree)>, verdict: Seq<char>) -> Seq<
    JsonTree,
> {
    let edit = if member_of(allowlist, "edit"@) == Some(JsonTree::Text(verdict)) {
        seq![JsonTree::Text("Edit"@), JsonTree::Text("Write"@)]
    } else {
        Seq::empty()
    };
    match member_of(allowlist, "bash"@) {
        Some(JsonTree::Object(patterns)) => edit + bash_rules(patterns, verdict),
        _ => edit,
    }
}

/// An allowlist as a `ClaudeCode` permissions object.
pub open spec fn permissions_tree(allowlist: Seq<(Seq<char>, JsonTree)>) -> JsonTree {
    JsonTree::Object(
        seq![
            ("allow"@, JsonTree::List(rules_for(allowlist, "allow"@))),
            ("ask"@, JsonTree::List(rules_for(allowlist, "ask"@))),
            ("deny"@, JsonTree::List(rules_for(allowlist, "deny"@))),
        ],
    )
}

/// Settings can be changed where they are an object, or nothing yet.
pub open spec fn settings_shape(settings: JsonTree) -> bool {
    settings is Object || settings is Null
}

pub open spec fn settings_members(settings: JsonTree) -> Seq<(Seq<char>, JsonTree)> {
    match settings {
        JsonTree::Object(members) => members,
        _ => Seq::empty(),
    }
}

/// The user's settings with their permissions replaced.
pub open spec fn merged_settings(
    settings: JsonTree,
    allowlist: Seq<(Seq<char>, JsonTree)>,
) -> JsonTree {
    JsonTree::Object(
        with_member(settings_members(settings), "permissions"@, permissions_tree(allowlist)),
    )
}

/// Generated settings carry the translated permissions and keep every other
/// key of the user's own.
pub proof fn lemma_merged_settings(
    settings: JsonTree,
    allowlist: Seq<(Seq<char>, JsonTree)>,
    key: Seq<char>,
)
    requires
        settings_shape(settings),
    ensures
        tree_member(merged_settings(settings, allowlist), key) == (if key == "permissions"@ {
            Some(permissions_tree(allowlist))
        } else {
            tree_member(settings, key)
        }),
{
    lemma_with_member_reads_back(
        settings_members(settings),
        "permissions"@,
        permissions_tree(allowlist),
        key,
    );
}

/// Each shell pattern of an allowlist becomes a rule under its own verdict.
pub proof fn lemma_bash_pattern_becomes_rule(
    patterns: Seq<(Seq<char>, JsonTree)>,
    verdict: Seq<char>,
    i: int,
)
    requires
        0 <= i < patterns.len(),
        patterns[i].1 == JsonTree::Text(verdict),
    ensures
        bash_rules(patterns, verdict).contains(
            JsonTree::Text("Bash("@ + patterns[i].0 + ")"@),
        ),
    decreases patterns.len(),
{
    let rule = JsonTree::Text("Bash("@ + patterns[i].0 + ")"@);
    let before = bash_rules(patterns.drop_last(), verdict);
    let last = bash_rule(patterns.last().0, patterns.last().1, verdict);
    if i == patterns.len() - 1 {
        assert((before + last)[before.len() as int] == rule);
    } else {
        lemma_bash_pattern_becomes_rule(patterns.drop_last(), verdict, i);
        let j = choose|j: int| 0 <= j < before.len() && before[j] == rule;
        assert((before + last)[j] == rule);
    }
}

/// No rule comes from anywhere but a pattern with that verdict.
pub proof fn lemma_rule_comes_from_pattern(
    patterns: Seq<(Seq<char>, JsonTree)>,
    verdict: Seq<char>,
    rule: JsonTree,
)
    requires
        bash_rules(patterns, verdict).contains(rule),
    ensures
        exists|i: int|
            0 <= i < patterns.len() && (#[trigger] patterns[i]).1 == JsonTree::Text(verdict) && rule
                == JsonTree::Text("Bash("@ + patterns[i].0 + ")"@),
    decreases patterns.len(),
{
    if patterns.len() > 0 {
        let before = bash_rules(patterns.drop_last(), verdict);
        let last = bash_rule(patterns.last().0, patterns.last().1, verdict);
        let j = choose|j: int| 0 <= j < (before + last).len() && (before + last)[j] == rule;
        if j < before.len() {
            assert(before[j] == rule);
            lemma_rule_comes_from_pattern(patterns.drop_last(), verdict, rule);
            let i = choose|i: int|
                0 <= i < patterns.drop_last().len() && (#[trigger] patterns.drop_last()[i]).1
                    == JsonTree::Text(verdict) && rule == JsonTree::Text(
                    "Bash("@ + patterns.drop_last()[i].0 + ")"@,
                );
            assert(patterns[i] == patterns.drop_last()[i]);
        } else {
            assert(patterns[patterns.len() - 1] == patterns.last());
        }
    }
}

fn rules(allowlist: &Allowlist, verdict: &str) -> (r: Vec<Json>)
    ensures
        trees(r@) == rules_for(member_trees(allowlist@), verdict@),
{
    broadcast use lemma_object_tree;

    let mut out: Vec<Json> = Vec::new();
    let ghost edit: Seq<JsonTree> = if member_of(member_trees(allowlist@), "edit"@) == Some(
        JsonTree::Text(verdict@),
    ) {
        seq![JsonTree::Text("Edit"@), JsonTree::Text("Write"@)]
    } else {
        Seq::empty()
    };
    if let Some(given) = find_member(allowlist, "edit") {
        if let Some(text) = given.as_text() {
            if same_text(text.as_str(), verdict) {
                out.push(Json::Text("Edit".to_owned()));
                out.push(Json::Text("Write".to_owned()));
            }
        }
    }
    assert(trees(out@) =~= edit);
    if let Some(Json::Object(patterns)) = find_member(allowlist, "bash") {
        let ghost all = member_trees(patterns@);
        let mut i: usize = 0;
        assert(all.take(0) =~= Seq::empty());
        assert(edit + Seq::<JsonTree>::empty() =~= edit);
        while i < patterns.len()
            invariant
                i <= patterns@.len(),
                all == member_trees(patterns@),
                trees(out@) == edit + bash_rules(all.take(i as int), verdict@),
            decreases patterns@.len() - i,
        {
            proof {
                assert(all.take(i + 1).drop_last() =~= all.take(i as int));
                assert(all.take(i + 1).last() == all[i as int]);
            }
            let ghost so_far = bash_rules(all.take(i as int), verdict@);
            let ghost before = out@;
            let ghost rule = bash_rule(all[i as int].0, all[i as int].1, verdict@);
            if let Some(text) = patterns[i].1.as_text() {
                if same_text(text.as_str(), verdict) {
                    out.push(Json::Text(cat3("Bash(", patterns[i].0.as_str(), ")")));
                }
            }
            assert(trees(out@) =~= trees(before) + rule);
            assert((edit + so_far) + rule =~= edit + (so_far + rule));
            i += 1;
        }
        assert(all.take(i as int) =~= all);
    }
    out
}

/// Replaces the permissions of the user's settings by the allowlist's.
pub fn merge_claude_settings(user_settings: Json, allowlist: &Allowlist) -> (r: Json)
    requires
        settings_shape(user_settings@),
    ensures
        r@ == merged_settings(user_settings@, member_trees(allowlist@)),
{
    broadcast use lemma_object_tree, lemma_list_tree;

    let permissions = vec![
        ("allow".to_owned(), Json::List(rules(allowlist, "allow"))),
        ("ask".to_owned(), Json::List(rules(allowlist, "ask"))),
        ("deny".to_owned(), Json::List(rules(allowlist, "deny"))),
    ];
    let ghost wanted = permissions_tree(member_trees(allowlist@));
    assert(member_trees(permissions@) =~= wanted->Object_0);
    let members = match user_settings {
        Json::Object(members) => members,
        _ => Vec::new(),
    };
    assert(member_trees(members@) =~= settings_members(user_settings@));
    Json::Object(set_member(members, "permissions", Json::Object(permissions)))
}

/// The user's settings as a tree: what cannot be read counts as empty.
pub open spec fn user_settings(text: Option<Seq<char>>) -> JsonTree {
    match text {
        Some(text) => match json_parsed(text) {
            Ok(tree) => tree,
            Err(_) => JsonTree::Object(Seq::empty()),
        },
        None => JsonTree::Object(Seq::empty()),
    }
}

fn read_settings(text: Option<&str>) -> (r: Json)
    ensures
        r@ == user_settings(
            (match text {
                Some(text) => Some(text@),
                None => None,
            }),
        ),
{
    broadcast use lemma_object_tree;

    let empty: Vec<(String, Json)> = Vec::new();
    assert(member_trees(empty@) =~= Seq::empty());
    match text {
        Some(text) => match parse_json(text) {
            Ok(value) => value,
            Err(_) => Json::Object(empty),
        },
        None => Json::Object(empty),
    }
}

impl Harness {
    /// The settings file of one `ClaudeCode` session, made from the text of
    /// the user's own. There is none without an allowlist, and none where the
    /// user's settings are JSON but no object.
    pub fn claude_settings(&self, user_text: Option<&str>) -> (r: Option<String>)
        ensures
            ({
                let user = user_settings(
                    (match user_text {
                        Some(text) => Some(text@),
                        None => None,
                    }),
                );
                match r {
                    Some(text) => self.permissions() is Some && settings_shape(user) && text@
                        == json_pretty(merged_settings(user, self.permissions()->Some_0)),
                    None => self.permissions() is None || !settings_shape(user),
                }
            }),
    {
        let allowlist = match self.allowlist() {
            Some(list) => list,
            None => return None,
        };
        let user = read_settings(user_text);
        let fits = match &user {
            Json::Object(_) => true,
            Json::Null => true,
            _ => false,
        };
        if fits {
            Some(pretty_json(&merge_claude_settings(user, allowlist)))
        } else {
            None
        }
    }

    /// The variables that the harness sets in the container.
    pub open spec fn environment_pairs(&self) -> Seq<(Seq<char>, Seq<char>)> {
        if self is Opencode && self.permissions() is Some {
            seq![
                (
                    "OPENCODE_CONFIG_CONTENT"@,
                    json_compact(
                        JsonTree::Object(
                            seq![("permission"@, JsonTree::Object(self.permissions()->Some_0))],
                        ),
                    ),
                ),
            ]
        } else {
            Seq::empty()
        }
    }

    /// OpenCode takes its allowlist from the environment. What it reads there
    /// is the allowlist itself, as far as JSON text can carry it.
    pub fn environment(&self) -> (r: Vec<(String, String)>)
        ensures
            text_pairs(r@) == self.environment_pairs(),
            self is Opencode && self.permissions() is Some && reads_back(
                JsonTree::Object(self.permissions()->Some_0),
                126,
            ) ==> parses_to(
                r@[0].1@,
                JsonTree::Object(
                    seq![("permission"@, JsonTree::Object(self.permissions()->Some_0))],
                ),
            ),
    {
        broadcast use lemma_object_tree;

        let mut out: Vec<(String, String)> = Vec::new();
        if let Harness::Opencode { allowlist: Some(list), .. } = self {
            let mut copy: Vec<(String, Json)> = Vec::new();
            let mut i: usize = 0;
            while i < list.len()
                invariant
                    i <= list@.len(),
                    copy@.len() == i,
                    forall|j: int|
                        0 <= j < i ==> (#[trigger] copy@[j]).0@ == list@[j].0@ && copy@[j].1@
                            == list@[j].1@,
                decreases list@.len() - i,
            {
                copy.push((list[i].0.clone(), list[i].1.duplicate()));
                i += 1;
            }
            assert(member_trees(copy@) =~= member_trees(list@));
            let members = vec![("permission".to_owned(), Json::Object(copy))];
            let ghost wanted = seq![("permission"@, JsonTree::Object(member_trees(list@)))];
            assert(member_trees(members@) =~= wanted);
            let content = Json::Object(members);
            out.push(("OPENCODE_CONFIG_CONTENT".to_owned(), compact_json(&content)));
        }
        assert(text_pairs(out@) =~= self.environment_pairs());
        out
    }
}

} // verus!
