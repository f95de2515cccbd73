//! The definitions that come with the library against the mounts that the
//! library makes of its own accord: a harness finds the same files in the same
//! places either way.

use super::mounts::{lemma_file_paths, lemma_state_paths};
use crate::builtin::{
    agent_path, claude_config_paths, claude_content, claude_tmpfs, hidden, in_hidden,
    opencode_content, probed, Access as BuiltinAccess, Harness, NamesView,
};
use crate::harness::def::{HarnessDefView, MountDefView};
use crate::harness::embedded::{
    claude_code_definition, codex_definition, inside, opencode_definition,
};
use crate::harness::types::{Access, HarnessDependency, HostBaseView, MountType};
use crate::paths::path_join;
use crate::podman::{tmpfs_args, HostDirs};
use vstd::prelude::*;
use vstd::string::*;

verus! {

/// Where a mount of a definition lies on the host, for a base that a harness
/// has to itself.
pub open spec fn host_place(mount: MountDefView, data: Seq<char>, state: Seq<char>) -> Seq<char> {
    match mount.host_base {
        HostBaseView::Data(name) => path_join(path_join(data, name), mount.host),
        HostBaseView::State(name) => path_join(path_join(state, name), mount.host),
        _ => mount.host,
    }
}

/// A mount keeps a file between sessions.
pub open spec fn keeps(mount: MountDefView) -> bool {
    mount.mount_type == MountType::State
}

/// Each file that OpenCode keeps between sessions by itself, its definition
/// keeps too: from the same place on the host to the same place in the
/// container. The result is the mount of the definition.
pub proof fn lemma_opencode_keeps_the_same(
    home: Seq<char>,
    data: Seq<char>,
    state: Seq<char>,
    i: int,
) -> (j: int)
    requires
        0 <= i < opencode_content(home, data, state).len(),
        opencode_content(home, data, state)[i].access != BuiltinAccess::ReadOnly,
    ensures
        0 <= j < opencode_definition().mounts.len(),
        ({
            let entry = opencode_content(home, data, state)[i];
            let mount = opencode_definition().mounts[j];
            &&& keeps(mount)
            &&& mount.access == Access::Pinned
            &&& entry.access == BuiltinAccess::Pinned
            &&& mount.target == entry.target
            &&& host_place(mount, data, state) == entry.host
        }),
{
    lemma_file_paths();
    lemma_state_paths();
    i + 3
}

/// What OpenCode's definition keeps between sessions, OpenCode keeps by itself.
/// The result is the entry.
pub proof fn lemma_opencode_keeps_nothing_else(
    home: Seq<char>,
    data: Seq<char>,
    state: Seq<char>,
    j: int,
) -> (i: int)
    requires
        0 <= j < opencode_definition().mounts.len(),
        keeps(opencode_definition().mounts[j]),
    ensures
        0 <= i < opencode_content(home, data, state).len(),
        opencode_content(home, data, state)[i].target == opencode_definition().mounts[j].target,
        opencode_content(home, data, state)[i].host == host_place(
            opencode_definition().mounts[j],
            data,
            state,
        ),
{
    lemma_file_paths();
    lemma_state_paths();
    j - 3
}

proof fn lemma_inside(base: Seq<char>, rest: Seq<char>)
    ensures
        inside(base, rest) == agent_path(in_hidden(base, rest)),
{
    reveal_strlit("/home/agent/.");
    reveal_strlit("/home/agent");
    reveal_strlit("/.");
    assert(inside(base, rest) =~= agent_path(in_hidden(base, rest)));
}

/// Each file that a `ClaudeCode` harness keeps between sessions by itself, its
/// definition keeps too, in the same places and in the same way. The result is
/// the mount of the definition.
pub proof fn lemma_claude_code_keeps_the_same(
    names: NamesView,
    claude_dir: Seq<char>,
    data: Seq<char>,
    state: Seq<char>,
    i: int,
) -> (j: int)
    requires
        0 <= i < claude_content(
            names.base,
            claude_dir,
            path_join(data, names.base + "-code"@),
        ).len(),
        claude_content(names.base, claude_dir, path_join(data, names.base + "-code"@))[i].access
            != BuiltinAccess::ReadOnly,
    ensures
        0 <= j < claude_code_definition(names).mounts.len(),
        ({
            let entry = claude_content(
                names.base,
                claude_dir,
                path_join(data, names.base + "-code"@),
            )[i];
            let mount = claude_code_definition(names).mounts[j];
            &&& keeps(mount)
            &&& mount.access == Access::Pinned <==> entry.access == BuiltinAccess::Pinned
            &&& mount.access == Access::PinnedDir <==> entry.access == BuiltinAccess::PinnedDir
            &&& mount.target == entry.target
            &&& host_place(mount, data, state) == entry.host
        }),
{
    lemma_inside(names.base, ".json"@);
    lemma_inside(names.base, "/projects"@);
    lemma_inside(names.base, "/history.jsonl"@);
    i + 2
}

/// Each piece of the user's configuration that a `ClaudeCode` harness is shown
/// by itself, its definition shows too: read-only, from the harness's directory
/// in the user's home to that in the agent's. The result is the mount.
pub proof fn lemma_claude_code_shows_the_same(names: NamesView, i: int) -> (j: int)
    requires
        0 <= i < claude_config_paths(names).len(),
    ensures
        0 <= j < claude_code_definition(names).mounts.len(),
        ({
            let path = claude_config_paths(names)[i];
            let mount = claude_code_definition(names).mounts[j];
            &&& mount.mount_type == MountType::Config
            &&& mount.access == Access::Ro
            &&& mount.host_base == HostBaseView::Home
            &&& mount.host == hidden(names.base) + "/"@ + path
            &&& mount.target == "/home/agent/"@ + hidden(names.base) + "/"@ + path
        }),
{
    let path = claude_config_paths(names)[i];
    reveal_strlit("/home/agent/.");
    reveal_strlit("/home/agent/");
    reveal_strlit(".");
    reveal_strlit("/");
    assert(inside(names.base, "/"@ + path) =~= "/home/agent/"@ + hidden(names.base) + "/"@ + path);
    i + 7
}

/// What a `ClaudeCode` definition shows of the user's configuration is a piece
/// that the harness is shown by itself. The result is the piece.
pub proof fn lemma_claude_code_shows_nothing_else(names: NamesView, j: int) -> (i: int)
    requires
        0 <= j < claude_code_definition(names).mounts.len(),
        claude_code_definition(names).mounts[j].mount_type == MountType::Config,
    ensures
        0 <= i < claude_config_paths(names).len(),
        claude_code_definition(names).mounts[j].host == hidden(names.base) + "/"@
            + claude_config_paths(names)[i],
{
    j - 7
}

/// A mount is in order: what is not kept goes to memory, what is kept lies on
/// the host in a directory that is the harness's own, and nothing of the user's
/// can be written. All of it is below the agent's home.
pub open spec fn in_order(mount: MountDefView) -> bool {
    &&& mount.mount_type == MountType::Ephemeral <==> mount.access == Access::Tmpfs
    &&& mount.mount_type == MountType::State <==> (mount.access == Access::Pinned || mount.access
        == Access::PinnedDir)
    &&& mount.mount_type == MountType::State ==> mount.host_base is Data || mount.host_base is State
    &&& mount.mount_type == MountType::Config ==> mount.host_base is Home
    &&& mount.mount_type == MountType::Generated ==> mount.host_base is Runtime
    &&& mount.target.len() > 12
    &&& mount.target.take(12) == "/home/agent/"@
}

pub open spec fn all_in_order(def: HarnessDefView) -> bool {
    forall|i: int| 0 <= i < def.mounts.len() ==> in_order(#[trigger] def.mounts[i])
}

/// The mounts of a `ClaudeCode` definition are in order.
pub proof fn lemma_claude_code_in_order(names: NamesView)
    ensures
        all_in_order(claude_code_definition(names)),
{
    let def = claude_code_definition(names);
    reveal_strlit("/home/agent/.");
    reveal_strlit("/home/agent/");
    assert("/home/agent/."@.take(12) =~= "/home/agent/"@);
    assert forall|i: int| 0 <= i < def.mounts.len() implies in_order(#[trigger] def.mounts[i]) by {
        let target = def.mounts[i].target;
        assert(target.take(12) =~= "/home/agent/"@);
    }
}

/// The harnesses that come with the library are npm packages, and each takes
/// its name from what it is called by.
pub proof fn lemma_embedded_are_packages(names: NamesView)
    ensures
        opencode_definition().depends_on.contains(HarnessDependency::Npm),
        codex_definition().depends_on.contains(HarnessDependency::Npm),
        claude_code_definition(names).depends_on.contains(HarnessDependency::Npm),
        opencode_definition().command[0] == opencode_definition().name,
        codex_definition().command == seq![codex_definition().name],
        claude_code_definition(names).name == claude_code_definition(names).command[0] + "-code"@,
{
    assert(opencode_definition().depends_on[0] == HarnessDependency::Npm);
    assert(codex_definition().depends_on[0] == HarnessDependency::Npm);
    assert(claude_code_definition(names).depends_on[0] == HarnessDependency::Npm);
}

/// The file from which a harness takes credentials is one of those whose
/// presence is asked for, and it is there exactly for a `ClaudeCode` harness
/// that wants credentials of a user with a home.
pub proof fn lemma_credentials_are_asked_for(harness: &Harness, dirs: HostDirs)
    ensures
        harness.credentials_file(dirs) is Some <==> harness is ClaudeCode && dirs.home is Some
            && harness.has_credentials(),
        harness.credentials_file(dirs) matches Some(path) ==> probed(harness, dirs).contains(path),
{
    if let Harness::ClaudeCode { names, .. } = harness {
        if dirs.home is Some {
            let home = dirs.home->Some_0@;
            let path = path_join(path_join(home, hidden(names@.base)), ".credentials.json"@);
            assert(probed(harness, dirs)[0] == path);
        }
    }
}

/// What a `ClaudeCode` definition puts into memory, the harness puts there by
/// itself too, at the same places and in the same order.
pub proof fn lemma_claude_code_forgets_the_same(names: NamesView, j: int)
    requires
        0 <= j < claude_code_definition(names).mounts.len(),
        claude_code_definition(names).mounts[j].access == Access::Tmpfs,
    ensures
        claude_tmpfs(names.base).len() == 6,
        0 <= j < 3,
        claude_tmpfs(names.base).subrange(2 * j, 2 * j + 2) == tmpfs_args(
            claude_code_definition(names).mounts[j].target,
        ),
{
    lemma_inside(names.base, "/todos"@);
    lemma_inside(names.base, "/shell-snapshots"@);
    lemma_inside(names.base, "/statsig"@);
    let target = claude_code_definition(names).mounts[j].target;
    assert(claude_tmpfs(names.base).subrange(2 * j, 2 * j + 2) =~= tmpfs_args(target));
}

/// Credentials of a definition stand where the harness finds them by itself.
pub proof fn lemma_credentials_stand_alike(
    names: NamesView,
    dir: Seq<char>,
    data: Seq<char>,
    state: Seq<char>,
    i: int,
)
    requires
        0 <= i < claude_code_definition(names).credentials.len(),
    ensures
        claude_code_definition(names).credentials[i].target == claude_content(
            names.base,
            dir,
            data,
        )[0].target,
        opencode_definition().credentials.len() == 1,
        opencode_definition().credentials[0].target == opencode_content(dir, data, state)[0].target,
{
    lemma_file_paths();
    lemma_inside(names.base, "/.credentials.json"@);
}

/// A path is a directory or something below it.
pub open spec fn at_or_below(path: Seq<char>, dir: Seq<char>) -> bool {
    path == dir || path.len() > dir.len() + 1 && path.take(dir.len() as int) == dir
        && path[dir.len() as int] == '/'
}

/// Codex keeps one directory. All else that its definition mounts is in memory
/// and lies below that directory, as do its credentials and its configuration.
pub proof fn lemma_codex_lives_in_one_directory(i: int)
    requires
        0 <= i < codex_definition().mounts.len(),
    ensures
        at_or_below(codex_definition().mounts[i].target, "/home/agent/.codex"@),
        codex_definition().mounts[i].access == Access::PinnedDir
            <==> codex_definition().mounts[i].target == "/home/agent/.codex"@,
        codex_definition().mounts[i].access == Access::PinnedDir || codex_definition().mounts[i].access
            == Access::Tmpfs,
        at_or_below(codex_definition().allowlist.target, "/home/agent/.codex"@),
        at_or_below(codex_definition().credentials[0].target, "/home/agent/.codex"@),
{
    reveal_strlit("/home/agent/.codex");
    reveal_strlit("/home/agent/.codex/log");
    reveal_strlit("/home/agent/.codex/cache");
    reveal_strlit("/home/agent/.codex/tmp");
    reveal_strlit("/home/agent/.codex/.tmp");
    reveal_strlit("/home/agent/.codex/config.toml");
    reveal_strlit("/home/agent/.codex/auth.json");
    let dir = "/home/agent/.codex"@;
    assert("/home/agent/.codex/log"@.take(18) =~= dir);
    assert("/home/agent/.codex/cache"@.take(18) =~= dir);
    assert("/home/agent/.codex/tmp"@.take(18) =~= dir);
    assert("/home/agent/.codex/.tmp"@.take(18) =~= dir);
    assert("/home/agent/.codex/config.toml"@.take(18) =~= dir);
    assert("/home/agent/.codex/auth.json"@.take(18) =~= dir);
}

} // verus!
