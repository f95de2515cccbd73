//! What a harness sees of the host: which files are mounted, where, and whether
//! they can be written.

use super::engine::{
    lemma_append, lemma_nothing_reads, lemma_tmpfs_reads, lemma_volume_reads, no_reading,
    reading_of, reads_as, volume, Reading,
};
use crate::builtin::{
    claude_config_mounts, claude_config_paths, claude_content, claude_tmpfs, entries_args,
    entries_prepares, entry_args, opencode_content, opencode_tmpfs, optional_mount, Access,
    ContentEntryView, Harness, NamesView,
};
use crate::paths::path_join;
use crate::podman::{tmpfs_args, HostDirs, Prepared};
use vstd::prelude::*;
use vstd::string::*;

verus! {

/// Only volumes.
spec fn with_volumes(volumes: Seq<Seq<char>>) -> Reading {
    Reading { volumes, ..no_reading() }
}

/// What the harness asks of the engine: memory file systems and volumes, and
/// nothing else.
pub open spec fn mounting(tmpfs: Seq<Seq<char>>, volumes: Seq<Seq<char>>) -> Reading {
    Reading { tmpfs, volumes, ..no_reading() }
}

pub open spec fn one_if(wanted: bool, item: Seq<char>) -> Seq<Seq<char>> {
    if wanted {
        seq![item]
    } else {
        Seq::empty()
    }
}

/// The volume of one entry, where it is mounted.
spec fn entry_volume(
    entry: ContentEntryView,
    credentials: bool,
    present: Seq<Seq<char>>,
) -> Seq<Seq<char>> {
    if entry.access == Access::ReadOnly {
        one_if(
            credentials && present.contains(entry.host),
            volume(entry.host, entry.target, ":ro"@),
        )
    } else {
        seq![volume(entry.host, entry.target, ":rw"@)]
    }
}

spec fn entry_volumes(
    list: Seq<ContentEntryView>,
    credentials: bool,
    present: Seq<Seq<char>>,
) -> Seq<Seq<char>>
    decreases list.len(),
{
    if list.len() == 0 {
        Seq::empty()
    } else {
        entry_volumes(list.drop_last(), credentials, present) + entry_volume(
            list.last(),
            credentials,
            present,
        )
    }
}

proof fn lemma_entry_reads(
    entry: ContentEntryView,
    credentials: bool,
    present: Seq<Seq<char>>,
)
    ensures
        reads_as(
            entry_args(entry, credentials, present),
            with_volumes(entry_volume(entry, credentials, present)),
        ),
{
    lemma_nothing_reads();
    lemma_volume_reads(entry.host, entry.target, entry.access == Access::ReadOnly);
}

proof fn lemma_entries_read(
    list: Seq<ContentEntryView>,
    credentials: bool,
    present: Seq<Seq<char>>,
)
    ensures
        reads_as(
            entries_args(list, credentials, present),
            with_volumes(entry_volumes(list, credentials, present)),
        ),
    decreases list.len(),
{
    if list.len() == 0 {
        lemma_nothing_reads();
    } else {
        let front = list.drop_last();
        lemma_entries_read(front, credentials, present);
        lemma_entry_reads(list.last(), credentials, present);
        lemma_append(
            entries_args(front, credentials, present),
            with_volumes(entry_volumes(front, credentials, present)),
            entry_args(list.last(), credentials, present),
            with_volumes(entry_volume(list.last(), credentials, present)),
            with_volumes(entry_volumes(list, credentials, present)),
        );
    }
}

proof fn lemma_volumes_push(
    list: Seq<ContentEntryView>,
    entry: ContentEntryView,
    credentials: bool,
    present: Seq<Seq<char>>,
)
    ensures
        entry_volumes(list.push(entry), credentials, present) == entry_volumes(
            list,
            credentials,
            present,
        ) + entry_volume(entry, credentials, present),
        entries_prepares(list.push(entry)) == entries_prepares(list)
            + crate::builtin::entry_prepares(entry),
{
    assert(list.push(entry).drop_last() =~= list);
}

proof fn lemma_optional_reads(source: Seq<char>, target: Seq<char>, present: Seq<Seq<char>>)
    ensures
        reads_as(
            optional_mount(source, target, present),
            with_volumes(one_if(present.contains(source), volume(source, target, ":ro"@))),
        ),
{
    lemma_nothing_reads();
    lemma_volume_reads(source, target, true);
}

proof fn lemma_agent_paths()
    ensures
        crate::builtin::agent_path("/.config/opencode"@) == "/home/agent/.config/opencode"@,
        crate::builtin::agent_path("/.cache"@) == "/home/agent/.cache"@,
        crate::builtin::agent_path("/.serena"@) == "/home/agent/.serena"@,
        crate::builtin::agent_path("/.local/share/opencode"@)
            == "/home/agent/.local/share/opencode"@,
        crate::builtin::agent_path("/.local/state/opencode"@)
            == "/home/agent/.local/state/opencode"@,
{
    reveal_strlit("/home/agent");
    reveal_strlit("/.config/opencode");
    reveal_strlit("/.cache");
    reveal_strlit("/.serena");
    reveal_strlit("/.local/share/opencode");
    reveal_strlit("/.local/state/opencode");
    reveal_strlit("/home/agent/.config/opencode");
    reveal_strlit("/home/agent/.cache");
    reveal_strlit("/home/agent/.serena");
    reveal_strlit("/home/agent/.local/share/opencode");
    reveal_strlit("/home/agent/.local/state/opencode");
    assert(crate::builtin::agent_path("/.config/opencode"@)
        =~= "/home/agent/.config/opencode"@);
    assert(crate::builtin::agent_path("/.cache"@) =~= "/home/agent/.cache"@);
    assert(crate::builtin::agent_path("/.serena"@) =~= "/home/agent/.serena"@);
    assert(crate::builtin::agent_path("/.local/share/opencode"@)
        =~= "/home/agent/.local/share/opencode"@);
    assert(crate::builtin::agent_path("/.local/state/opencode"@)
        =~= "/home/agent/.local/state/opencode"@);
}

pub(super) proof fn lemma_file_paths()
    ensures
        crate::builtin::agent_path("/.local/share/opencode/auth.json"@)
            == "/home/agent/.local/share/opencode/auth.json"@,
        crate::builtin::agent_path("/.local/share/opencode/opencode.db"@)
            == "/home/agent/.local/share/opencode/opencode.db"@,
        crate::builtin::agent_path("/.local/share/opencode/opencode.db-wal"@)
            == "/home/agent/.local/share/opencode/opencode.db-wal"@,
        crate::builtin::agent_path("/.local/share/opencode/opencode.db-shm"@)
            == "/home/agent/.local/share/opencode/opencode.db-shm"@,
{
    reveal_strlit("/home/agent");
    reveal_strlit("/.local/share/opencode/auth.json");
    reveal_strlit("/.local/share/opencode/opencode.db");
    reveal_strlit("/.local/share/opencode/opencode.db-wal");
    reveal_strlit("/.local/share/opencode/opencode.db-shm");
    reveal_strlit("/home/agent/.local/share/opencode/auth.json");
    reveal_strlit("/home/agent/.local/share/opencode/opencode.db");
    reveal_strlit("/home/agent/.local/share/opencode/opencode.db-wal");
    reveal_strlit("/home/agent/.local/share/opencode/opencode.db-shm");
    assert(crate::builtin::agent_path("/.local/share/opencode/auth.json"@)
        =~= "/home/agent/.local/share/opencode/auth.json"@);
    assert(crate::builtin::agent_path("/.local/share/opencode/opencode.db"@)
        =~= "/home/agent/.local/share/opencode/opencode.db"@);
    assert(crate::builtin::agent_path("/.local/share/opencode/opencode.db-wal"@)
        =~= "/home/agent/.local/share/opencode/opencode.db-wal"@);
    assert(crate::builtin::agent_path("/.local/share/opencode/opencode.db-shm"@)
        =~= "/home/agent/.local/share/opencode/opencode.db-shm"@);
}

pub(super) proof fn lemma_state_paths()
    ensures
        crate::builtin::agent_path("/.local/state/opencode/kv.json"@)
            == "/home/agent/.local/state/opencode/kv.json"@,
        crate::builtin::agent_path("/.local/state/opencode/session.json"@)
            == "/home/agent/.local/state/opencode/session.json"@,
        crate::builtin::agent_path("/.local/state/opencode/model.json"@)
            == "/home/agent/.local/state/opencode/model.json"@,
        crate::builtin::agent_path("/.local/state/opencode/prompt-history.jsonl"@)
            == "/home/agent/.local/state/opencode/prompt-history.jsonl"@,
{
    reveal_strlit("/home/agent");
    reveal_strlit("/.local/state/opencode/kv.json");
    reveal_strlit("/.local/state/opencode/session.json");
    reveal_strlit("/.local/state/opencode/model.json");
    reveal_strlit("/.local/state/opencode/prompt-history.jsonl");
    reveal_strlit("/home/agent/.local/state/opencode/kv.json");
    reveal_strlit("/home/agent/.local/state/opencode/session.json");
    reveal_strlit("/home/agent/.local/state/opencode/model.json");
    reveal_strlit("/home/agent/.local/state/opencode/prompt-history.jsonl");
    assert(crate::builtin::agent_path("/.local/state/opencode/kv.json"@)
        =~= "/home/agent/.local/state/opencode/kv.json"@);
    assert(crate::builtin::agent_path("/.local/state/opencode/session.json"@)
        =~= "/home/agent/.local/state/opencode/session.json"@);
    assert(crate::builtin::agent_path("/.local/state/opencode/model.json"@)
        =~= "/home/agent/.local/state/opencode/model.json"@);
    assert(crate::builtin::agent_path("/.local/state/opencode/prompt-history.jsonl"@)
        =~= "/home/agent/.local/state/opencode/prompt-history.jsonl"@);
}

/// The files that an OpenCode session may write on the host, with their places
/// in the container.
pub open spec fn opencode_kept(data: Seq<char>, state: Seq<char>) -> Seq<(Seq<char>, Seq<char>)> {
    let d = path_join(data, "opencode"@);
    let s = path_join(state, "opencode"@);
    seq![
        (path_join(d, "opencode.db"@), "/home/agent/.local/share/opencode/opencode.db"@),
        (path_join(d, "opencode.db-wal"@), "/home/agent/.local/share/opencode/opencode.db-wal"@),
        (path_join(d, "opencode.db-shm"@), "/home/agent/.local/share/opencode/opencode.db-shm"@),
        (path_join(s, "kv.json"@), "/home/agent/.local/state/opencode/kv.json"@),
        (path_join(s, "session.json"@), "/home/agent/.local/state/opencode/session.json"@),
        (path_join(s, "model.json"@), "/home/agent/.local/state/opencode/model.json"@),
        (
            path_join(s, "prompt-history.jsonl"@),
            "/home/agent/.local/state/opencode/prompt-history.jsonl"@,
        ),
    ]
}

/// Files that can be written, as volumes.
pub open spec fn writable(list: Seq<(Seq<char>, Seq<char>)>) -> Seq<Seq<char>> {
    Seq::new(list.len(), |i: int| volume(list[i].0, list[i].1, ":rw"@))
}

/// They have to be there before the engine starts.
pub open spec fn made_first(list: Seq<(Seq<char>, Seq<char>)>) -> Seq<Prepared> {
    Seq::new(list.len(), |i: int| Prepared::File(list[i].0))
}

spec fn kept_entries(list: Seq<(Seq<char>, Seq<char>)>) -> Seq<ContentEntryView> {
    Seq::new(
        list.len(),
        |i: int|
            ContentEntryView { host: list[i].0, target: list[i].1, access: Access::Pinned },
    )
}

proof fn lemma_kept_volumes(
    first: Seq<ContentEntryView>,
    list: Seq<(Seq<char>, Seq<char>)>,
    credentials: bool,
    present: Seq<Seq<char>>,
)
    ensures
        entry_volumes(first + kept_entries(list), credentials, present) == entry_volumes(
            first,
            credentials,
            present,
        ) + writable(list),
        entries_prepares(first + kept_entries(list)) == entries_prepares(first) + made_first(
            list,
        ),
    decreases list.len(),
{
    let all = first + kept_entries(list);
    if list.len() == 0 {
        assert(all =~= first);
        assert(entry_volumes(first, credentials, present) + writable(list) =~= entry_volumes(
            first,
            credentials,
            present,
        ));
        assert(entries_prepares(first) + made_first(list) =~= entries_prepares(first));
    } else {
        let front = list.drop_last();
        lemma_kept_volumes(first, front, credentials, present);
        let before = first + kept_entries(front);
        let last = ContentEntryView {
            host: list.last().0,
            target: list.last().1,
            access: Access::Pinned,
        };
        assert(all =~= before.push(last));
        lemma_volumes_push(before, last, credentials, present);
        assert(writable(list) =~= writable(front) + entry_volume(last, credentials, present));
        assert(made_first(list) =~= made_first(front) + crate::builtin::entry_prepares(last));
        assert(entry_volumes(all, credentials, present) =~= entry_volumes(
            first,
            credentials,
            present,
        ) + writable(list));
        assert(entries_prepares(all) =~= entries_prepares(first) + made_first(list));
    }
}

proof fn lemma_opencode_entries(
    home: Seq<char>,
    data: Seq<char>,
    state: Seq<char>,
    credentials: bool,
    present: Seq<Seq<char>>,
)
    ensures
        ({
            let secret = path_join(home, ".local/share/opencode/auth.json"@);
            let kept = opencode_kept(data, state);
            let list = opencode_content(home, data, state);
            &&& entry_volumes(list, credentials, present) == one_if(
                credentials && present.contains(secret),
                volume(secret, "/home/agent/.local/share/opencode/auth.json"@, ":ro"@),
            ) + writable(kept)
            &&& entries_prepares(list) == made_first(kept)
        }),
{
    lemma_file_paths();
    lemma_state_paths();
    let secret = path_join(home, ".local/share/opencode/auth.json"@);
    let kept = opencode_kept(data, state);
    let list = opencode_content(home, data, state);
    let none = Seq::<ContentEntryView>::empty();
    let first = ContentEntryView {
        host: secret,
        target: "/home/agent/.local/share/opencode/auth.json"@,
        access: Access::ReadOnly,
    };
    lemma_volumes_push(none, first, credentials, present);
    assert(none.push(first) =~= seq![first]);
    assert(list =~= seq![first] + kept_entries(kept));
    lemma_kept_volumes(seq![first], kept, credentials, present);
    assert(entry_volumes(seq![first], credentials, present) =~= entry_volume(
        first,
        credentials,
        present,
    ));
    assert(entries_prepares(seq![first]) =~= Seq::empty());
    assert(Seq::<Prepared>::empty() + made_first(kept) =~= made_first(kept));
}

proof fn lemma_four_tmpfs_read(
    a: Seq<char>,
    b: Seq<char>,
    c: Seq<char>,
    d: Seq<char>,
)
    ensures
        reads_as(
            tmpfs_args(a) + tmpfs_args(b) + tmpfs_args(c) + tmpfs_args(d),
            Reading {
                tmpfs: seq![
                    a + ":rw,mode=1777"@,
                    b + ":rw,mode=1777"@,
                    c + ":rw,mode=1777"@,
                    d + ":rw,mode=1777"@,
                ],
                ..no_reading()
            },
        ),
{
    let end = ":rw,mode=1777"@;
    lemma_three_tmpfs_read(a, b, c);
    lemma_tmpfs_reads(d);
    lemma_append(
        tmpfs_args(a) + tmpfs_args(b) + tmpfs_args(c),
        Reading { tmpfs: seq![a + end, b + end, c + end], ..no_reading() },
        tmpfs_args(d),
        Reading { tmpfs: seq![d + end], ..no_reading() },
        Reading { tmpfs: seq![a + end, b + end, c + end, d + end], ..no_reading() },
    );
}

proof fn lemma_three_tmpfs_read(a: Seq<char>, b: Seq<char>, c: Seq<char>)
    ensures
        reads_as(
            tmpfs_args(a) + tmpfs_args(b) + tmpfs_args(c),
            Reading {
                tmpfs: seq![
                    a + ":rw,mode=1777"@,
                    b + ":rw,mode=1777"@,
                    c + ":rw,mode=1777"@,
                ],
                ..no_reading()
            },
        ),
{
    let end = ":rw,mode=1777"@;
    lemma_tmpfs_reads(a);
    lemma_tmpfs_reads(b);
    lemma_tmpfs_reads(c);
    lemma_append(
        tmpfs_args(a),
        Reading { tmpfs: seq![a + end], ..no_reading() },
        tmpfs_args(b),
        Reading { tmpfs: seq![b + end], ..no_reading() },
        Reading { tmpfs: seq![a + end, b + end], ..no_reading() },
    );
    lemma_append(
        tmpfs_args(a) + tmpfs_args(b),
        Reading { tmpfs: seq![a + end, b + end], ..no_reading() },
        tmpfs_args(c),
        Reading { tmpfs: seq![c + end], ..no_reading() },
        Reading { tmpfs: seq![a + end, b + end, c + end], ..no_reading() },
    );
}

/// What OpenCode writes and does not keep goes to memory.
pub open spec fn opencode_memory() -> Seq<Seq<char>> {
    let end = ":rw,mode=1777"@;
    seq![
        "/home/agent/.local/share/opencode"@ + end,
        "/home/agent/.local/state/opencode"@ + end,
        "/home/agent/.cache"@ + end,
        "/home/agent/.serena"@ + end,
    ]
}

/// An OpenCode session is planned wherever the host has the three directories.
/// It keeps its database and its state on the host; it reads the user's
/// credentials only where they are enabled and there, and the user's
/// configuration only where that is there and either the credentials are enabled
/// or an allowlist is given.
pub proof fn lemma_opencode_mounts(
    harness: &Harness,
    dirs: HostDirs,
    settings: Seq<char>,
    present: Seq<Seq<char>>,
)
    requires
        harness is Opencode,
        dirs.home is Some,
        dirs.data is Some,
        dirs.state is Some,
    ensures
        ({
            let home = dirs.home->Some_0@;
            let kept = opencode_kept(dirs.data->Some_0@, dirs.state->Some_0@);
            let secret = path_join(home, ".local/share/opencode/auth.json"@);
            let own = path_join(home, ".config/opencode"@);
            let plan = harness.mount_outcome(dirs, settings, present)->Ok_0;
            match harness {
                Harness::Opencode { allowlist, credentials, .. } => {
                    &&& harness.mount_outcome(dirs, settings, present) is Ok
                    &&& plan.prepare == made_first(kept)
                    &&& reading_of(plan.args) == Some(
                        mounting(
                            opencode_memory(),
                            one_if(
                                *credentials && present.contains(secret),
                                volume(
                                    secret,
                                    "/home/agent/.local/share/opencode/auth.json"@,
                                    ":ro"@,
                                ),
                            ) + writable(kept) + one_if(
                                present.contains(own) && (*credentials || allowlist is Some),
                                volume(own, "/home/agent/.config/opencode"@, ":ro"@),
                            ),
                        ),
                    )
                },
                _ => true,
            }
        }),
{
    let home = dirs.home->Some_0@;
    let data = dirs.data->Some_0@;
    let state = dirs.state->Some_0@;
    let kept = opencode_kept(data, state);
    let secret = path_join(home, ".local/share/opencode/auth.json"@);
    let own = path_join(home, ".config/opencode"@);
    let credentials = harness.has_credentials();
    let list = opencode_content(home, data, state);
    let plan = harness.mount_outcome(dirs, settings, present)->Ok_0;
    lemma_agent_paths();
    lemma_four_tmpfs_read(
        "/home/agent/.local/share/opencode"@,
        "/home/agent/.local/state/opencode"@,
        "/home/agent/.cache"@,
        "/home/agent/.serena"@,
    );
    let a = opencode_tmpfs();
    let ra = mounting(opencode_memory(), Seq::empty());
    lemma_entries_read(list, credentials, present);
    lemma_opencode_entries(home, data, state, credentials, present);
    let kept_volumes = entry_volumes(list, credentials, present);
    let b = a + entries_args(list, credentials, present);
    let rb = mounting(opencode_memory(), kept_volumes);
    lemma_append(a, ra, entries_args(list, credentials, present), with_volumes(kept_volumes), rb);
    let wanted = harness.needs_config();
    let last = one_if(
        present.contains(own) && wanted,
        volume(own, "/home/agent/.config/opencode"@, ":ro"@),
    );
    let args = if wanted {
        optional_mount(own, "/home/agent/.config/opencode"@, present)
    } else {
        Seq::empty()
    };
    lemma_nothing_reads();
    lemma_optional_reads(own, "/home/agent/.config/opencode"@, present);
    assert(reads_as(args, with_volumes(last)));
    lemma_append(b, rb, args, with_volumes(last), mounting(opencode_memory(), kept_volumes + last));
    assert(plan.args == b + args);
    reveal(reads_as);
}

proof fn lemma_volume_end(source: Seq<char>, target: Seq<char>, way: Seq<char>)
    requires
        target.len() > 0,
        way.len() == 3,
    ensures
        volume(source, target, way).len() >= 4,
        volume(source, target, way).last() == way[2],
        volume(source, target, way)[volume(source, target, way).len() - 4] == target.last(),
{
}

/// An OpenCode session sees the user's configuration read-only exactly where the
/// host has it and the harness has credentials or an allowlist.
pub proof fn lemma_opencode_sees_configuration(
    harness: &Harness,
    dirs: HostDirs,
    settings: Seq<char>,
    present: Seq<Seq<char>>,
)
    requires
        harness is Opencode,
        dirs.home is Some,
        dirs.data is Some,
        dirs.state is Some,
    ensures
        ({
            let own = path_join(dirs.home->Some_0@, ".config/opencode"@);
            let plan = harness.mount_outcome(dirs, settings, present)->Ok_0;
            reading_of(plan.args)->Some_0.volumes.contains(
                volume(own, "/home/agent/.config/opencode"@, ":ro"@),
            ) <==> present.contains(own) && match harness {
                Harness::Opencode { allowlist, credentials, .. } => *credentials || allowlist is Some,
                _ => false,
            }
        }),
{
    lemma_opencode_mounts(harness, dirs, settings, present);
    reveal_strlit(":ro");
    reveal_strlit(":rw");
    reveal_strlit("/home/agent/.config/opencode");
    reveal_strlit("/home/agent/.local/share/opencode/auth.json");
    let home = dirs.home->Some_0@;
    let kept = opencode_kept(dirs.data->Some_0@, dirs.state->Some_0@);
    let secret = path_join(home, ".local/share/opencode/auth.json"@);
    let own = path_join(home, ".config/opencode"@);
    let item = volume(own, "/home/agent/.config/opencode"@, ":ro"@);
    let auth = volume(secret, "/home/agent/.local/share/opencode/auth.json"@, ":ro"@);
    let wanted = present.contains(own) && harness.needs_config();
    let first = one_if(harness.has_credentials() && present.contains(secret), auth);
    let middle = writable(kept);
    let last = one_if(wanted, item);
    let all = first + middle + last;
    let plan = harness.mount_outcome(dirs, settings, present)->Ok_0;
    assert(reading_of(plan.args)->Some_0.volumes == all);
    lemma_volume_end(own, "/home/agent/.config/opencode"@, ":ro"@);
    lemma_volume_end(secret, "/home/agent/.local/share/opencode/auth.json"@, ":ro"@);
    assert("/home/agent/.config/opencode"@.last() == 'e');
    assert("/home/agent/.local/share/opencode/auth.json"@.last() == 'n');
    assert(item != auth);
    assert forall|i: int| 0 <= i < middle.len() implies #[trigger] middle[i] != item by {
        let one = volume(kept[i].0, kept[i].1, ":rw"@);
        assert(one.last() == ":rw"@[2]);
        assert(middle[i] == one);
    }
    if wanted {
        assert(all[(first.len() + middle.len()) as int] == item);
    } else if all.contains(item) {
        let i = choose|i: int| 0 <= i < all.len() && all[i] == item;
        if i < first.len() {
            assert(all[i] == first[i]);
        } else {
            assert(all[i] == middle[i - first.len()]);
        }
    }
}

/// Where the files of a `ClaudeCode` session are in the container.
pub open spec fn inside(base: Seq<char>, rest: Seq<char>) -> Seq<char> {
    "/home/agent/."@ + base + rest
}

proof fn lemma_inside(base: Seq<char>, rest: Seq<char>)
    ensures
        crate::builtin::agent_path(crate::builtin::in_hidden(base, rest)) == inside(base, rest),
{
    reveal_strlit("/home/agent");
    reveal_strlit("/.");
    reveal_strlit("/home/agent/.");
    assert(crate::builtin::agent_path(crate::builtin::in_hidden(base, rest)) =~= inside(
        base,
        rest,
    ));
}

/// What a `ClaudeCode` session reads of the user's own files, by name.
pub open spec fn personal(names: NamesView) -> Seq<Seq<char>> {
    seq![
        names.memory,
        "keybindings.json"@,
        "skills"@,
        "agents"@,
        "commands"@,
        "rules"@,
        "output-styles"@,
        "themes"@,
        "workflows"@,
    ]
}

/// The volumes of those of `list` that the host has in `dir`.
pub open spec fn readable(
    base: Seq<char>,
    dir: Seq<char>,
    list: Seq<Seq<char>>,
    present: Seq<Seq<char>>,
) -> Seq<Seq<char>> {
    list.filter(|name: Seq<char>| present.contains(path_join(dir, name))).map_values(
        |name: Seq<char>| volume(path_join(dir, name), inside(base, "/"@ + name), ":ro"@),
    )
}

proof fn lemma_personal_reads(
    base: Seq<char>,
    dir: Seq<char>,
    list: Seq<Seq<char>>,
    present: Seq<Seq<char>>,
)
    ensures
        reads_as(
            claude_config_mounts(base, list, dir, present),
            with_volumes(readable(base, dir, list, present)),
        ),
    decreases list.len(),
{
    reveal(Seq::filter);
    let there = |name: Seq<char>| present.contains(path_join(dir, name));
    let mount = |name: Seq<char>|
        volume(path_join(dir, name), inside(base, "/"@ + name), ":ro"@);
    if list.len() == 0 {
        lemma_nothing_reads();
        assert(readable(base, dir, list, present) =~= Seq::empty());
    } else {
        let front = list.drop_last();
        let last = list.last();
        lemma_personal_reads(base, dir, front, present);
        lemma_inside(base, "/"@ + last);
        let source = path_join(dir, last);
        let target = inside(base, "/"@ + last);
        lemma_optional_reads(source, target, present);
        let one = one_if(present.contains(source), volume(source, target, ":ro"@));
        if there(last) {
            assert(front.filter(there).push(last).map_values(mount) =~= front.filter(
                there,
            ).map_values(mount).push(mount(last)));
        }
        assert(readable(base, dir, list, present) =~= readable(base, dir, front, present) + one);
        lemma_append(
            claude_config_mounts(base, front, dir, present),
            with_volumes(readable(base, dir, front, present)),
            optional_mount(source, target, present),
            with_volumes(one),
            with_volumes(readable(base, dir, list, present)),
        );
    }
}

/// A `ClaudeCode` session is planned wherever the host has the two directories.
/// It keeps its own file, its projects and its history on the host; it reads the
/// credentials only where they are enabled and there, generated settings exactly
/// where an allowlist is given, and of the user's own files those that are there.
pub proof fn lemma_claude_code_mounts(
    harness: &Harness,
    dirs: HostDirs,
    settings: Seq<char>,
    present: Seq<Seq<char>>,
)
    requires
        harness is ClaudeCode,
        dirs.home is Some,
        dirs.data is Some,
    ensures
        (match harness {
            Harness::ClaudeCode { names, allowlist, credentials, .. } => {
                let base = names@.base;
                let own = path_join(dirs.home->Some_0@, "."@ + base);
                let kept = path_join(dirs.data->Some_0@, base + "-code"@);
                let secret = path_join(own, ".credentials.json"@);
                let plan = harness.mount_outcome(dirs, settings, present)->Ok_0;
                &&& harness.mount_outcome(dirs, settings, present) is Ok
                &&& plan.prepare == seq![
                    Prepared::File(path_join(kept, base + ".json"@)),
                    Prepared::Directory(path_join(kept, "projects"@)),
                    Prepared::File(path_join(kept, "history.jsonl"@)),
                ]
                &&& reading_of(plan.args) == Some(
                    mounting(
                        seq![
                            inside(base, "/todos"@) + ":rw,mode=1777"@,
                            inside(base, "/shell-snapshots"@) + ":rw,mode=1777"@,
                            inside(base, "/statsig"@) + ":rw,mode=1777"@,
                        ],
                        one_if(
                            *credentials && present.contains(secret),
                            volume(secret, inside(base, "/.credentials.json"@), ":ro"@),
                        ) + seq![
                            volume(
                                path_join(kept, base + ".json"@),
                                inside(base, ".json"@),
                                ":rw"@,
                            ),
                            volume(
                                path_join(kept, "projects"@),
                                inside(base, "/projects"@),
                                ":rw"@,
                            ),
                            volume(
                                path_join(kept, "history.jsonl"@),
                                inside(base, "/history.jsonl"@),
                                ":rw"@,
                            ),
                        ] + one_if(
                            allowlist is Some,
                            volume(settings, inside(base, "/settings.json"@), ":ro"@),
                        ) + readable(base, own, personal(names@), present),
                    ),
                )
            },
            _ => true,
        }),
{
    match harness {
        Harness::ClaudeCode { names, allowlist, credentials, .. } => {
            let base = names@.base;
            let own = path_join(dirs.home->Some_0@, "."@ + base);
            let kept = path_join(dirs.data->Some_0@, base + "-code"@);
            let plan = harness.mount_outcome(dirs, settings, present)->Ok_0;
            let list = claude_content(base, own, kept);
            lemma_inside(base, "/todos"@);
            lemma_inside(base, "/shell-snapshots"@);
            lemma_inside(base, "/statsig"@);
            lemma_inside(base, "/settings.json"@);
            lemma_three_tmpfs_read(
                inside(base, "/todos"@),
                inside(base, "/shell-snapshots"@),
                inside(base, "/statsig"@),
            );
            let memory = seq![
                inside(base, "/todos"@) + ":rw,mode=1777"@,
                inside(base, "/shell-snapshots"@) + ":rw,mode=1777"@,
                inside(base, "/statsig"@) + ":rw,mode=1777"@,
            ];
            lemma_entries_read(list, *credentials, present);
            lemma_claude_entries(base, own, kept, *credentials, present);
            let files = entry_volumes(list, *credentials, present);
            let a = claude_tmpfs(base);
            let b = a + entries_args(list, *credentials, present);
            let rb = mounting(memory, files);
            lemma_append(
                a,
                mounting(memory, Seq::empty()),
                entries_args(list, *credentials, present),
                with_volumes(files),
                rb,
            );
            lemma_nothing_reads();
            lemma_volume_reads(settings, inside(base, "/settings.json"@), true);
            let one = one_if(
                allowlist is Some,
                volume(settings, inside(base, "/settings.json"@), ":ro"@),
            );
            let args = if allowlist is Some {
                crate::podman::volume_args(settings, inside(base, "/settings.json"@), true)
            } else {
                Seq::empty()
            };
            assert(reads_as(args, with_volumes(one)));
            let rc = mounting(memory, files + one);
            lemma_append(b, rb, args, with_volumes(one), rc);
            let c = b + args;
            lemma_personal_reads(base, own, personal(names@), present);
            let more = readable(base, own, personal(names@), present);
            assert(claude_config_paths(names@) =~= personal(names@));
            let last = claude_config_mounts(base, personal(names@), own, present);
            lemma_append(c, rc, last, with_volumes(more), mounting(memory, files + one + more));
            assert(plan.args == c + last);
            reveal(reads_as);
        },
        _ => {},
    }
}

proof fn lemma_claude_entries(
    base: Seq<char>,
    own: Seq<char>,
    kept: Seq<char>,
    credentials: bool,
    present: Seq<Seq<char>>,
)
    ensures
        ({
            let secret = path_join(own, ".credentials.json"@);
            let list = claude_content(base, own, kept);
            &&& entry_volumes(list, credentials, present) == one_if(
                credentials && present.contains(secret),
                volume(secret, inside(base, "/.credentials.json"@), ":ro"@),
            ) + seq![
                volume(path_join(kept, base + ".json"@), inside(base, ".json"@), ":rw"@),
                volume(path_join(kept, "projects"@), inside(base, "/projects"@), ":rw"@),
                volume(
                    path_join(kept, "history.jsonl"@),
                    inside(base, "/history.jsonl"@),
                    ":rw"@,
                ),
            ]
            &&& entries_prepares(list) == seq![
                Prepared::File(path_join(kept, base + ".json"@)),
                Prepared::Directory(path_join(kept, "projects"@)),
                Prepared::File(path_join(kept, "history.jsonl"@)),
            ]
        }),
{
    lemma_inside(base, "/.credentials.json"@);
    lemma_inside(base, ".json"@);
    lemma_inside(base, "/projects"@);
    lemma_inside(base, "/history.jsonl"@);
    let list = claude_content(base, own, kept);
    let l0 = Seq::<ContentEntryView>::empty();
    let l1 = l0.push(list[0]);
    let l2 = l1.push(list[1]);
    let l3 = l2.push(list[2]);
    let l4 = l3.push(list[3]);
    lemma_volumes_push(l0, list[0], credentials, present);
    lemma_volumes_push(l1, list[1], credentials, present);
    lemma_volumes_push(l2, list[2], credentials, present);
    lemma_volumes_push(l3, list[3], credentials, present);
    assert(list =~= l4);
    assert(entry_volumes(list, credentials, present) =~= entry_volume(
        list[0],
        credentials,
        present,
    ) + seq![
        volume(path_join(kept, base + ".json"@), inside(base, ".json"@), ":rw"@),
        volume(path_join(kept, "projects"@), inside(base, "/projects"@), ":rw"@),
        volume(path_join(kept, "history.jsonl"@), inside(base, "/history.jsonl"@), ":rw"@),
    ]);
    assert(entries_prepares(list) =~= seq![
        Prepared::File(path_join(kept, base + ".json"@)),
        Prepared::Directory(path_join(kept, "projects"@)),
        Prepared::File(path_join(kept, "history.jsonl"@)),
    ]);
}

} // verus!
