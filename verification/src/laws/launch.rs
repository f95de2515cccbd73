//! What the container engine reads in the arguments that start a session.

use super::engine::{
    both, lemma_append, lemma_flag_reads, lemma_flags_read, lemma_nothing_reads, lemma_options_differ,
    lemma_pair_reads, lemma_reads_add, lemma_same, lemma_tmpfs_reads, no_reading, of_pair, reading_of, reads_as,
    takes_value, Reading,
};
use crate::attach::{env_args, env_pair};
use crate::config::sets_variable;
use crate::podman::{pair, tmpfs_args};
use crate::run::{confinement, not_set, path_merge, Launch};
use crate::text::{text_pairs, texts};
use crate::workspace::CopyStrategy;
use vstd::prelude::*;
use vstd::string::*;

verus! {

/// `KEY=value` for each variable, in order.
pub open spec fn settings(list: Seq<(Seq<char>, Seq<char>)>) -> Seq<Seq<char>> {
    Seq::new(list.len(), |i: int| list[i].0 + "="@ + list[i].1)
}

proof fn lemma_variables_read(list: Seq<(Seq<char>, Seq<char>)>)
    ensures
        reads_as(env_args(list), Reading { variables: settings(list), ..no_reading() }),
    decreases list.len(),
{
    if list.len() == 0 {
        lemma_nothing_reads();
        assert(settings(list) =~= Seq::empty());
    } else {
        let front = list.drop_last();
        let last = list.last();
        lemma_variables_read(front);
        lemma_options_differ();
        lemma_pair_reads("--env"@, last.0 + "="@ + last.1);
        let one = Reading { variables: settings(front), ..no_reading() };
        let two = of_pair("--env"@, last.0 + "="@ + last.1);
        lemma_reads_add(env_args(front), one, env_pair(last.0, last.1), two);
        assert(settings(list) =~= settings(front) + seq![last.0 + "="@ + last.1]);
        lemma_same(both(one, two), Reading { variables: settings(list), ..no_reading() });
    }
}

/// The flags of every session.
pub open spec fn session_flags() -> Seq<Seq<char>> {
    seq![
        "run"@,
        "--rm"@,
        "--interactive"@,
        "--tty"@,
        "--read-only"@,
        "--pull=never"@,
        "--cap-drop=ALL"@,
        "--cap-add=SETUID"@,
        "--cap-add=SETGID"@,
        "--cap-add=SETPCAP"@,
        "--security-opt=no-new-privileges"@,
        "--userns=keep-id"@,
    ]
}

proof fn lemma_flags_stand_alone()
    ensures
        forall|i: int|
            0 <= i < session_flags().len() ==> !takes_value(#[trigger] session_flags()[i]),
        !takes_value("--cap-add=NET_ADMIN"@),
{
    reveal_strlit("--name");
    reveal_strlit("--volume");
    reveal_strlit("--workdir");
    reveal_strlit("--tmpfs");
    reveal_strlit("--env");
    reveal_strlit("--env-merge");
    reveal_strlit("run");
    reveal_strlit("--rm");
    reveal_strlit("--interactive");
    reveal_strlit("--tty");
    reveal_strlit("--read-only");
    reveal_strlit("--pull=never");
    reveal_strlit("--cap-drop=ALL");
    reveal_strlit("--cap-add=SETUID");
    reveal_strlit("--cap-add=SETGID");
    reveal_strlit("--cap-add=SETPCAP");
    reveal_strlit("--security-opt=no-new-privileges");
    reveal_strlit("--userns=keep-id");
    reveal_strlit("--cap-add=NET_ADMIN");
    assert("--name"@.len() == 6 && "--volume"@.len() == 8 && "--workdir"@.len() == 9);
    assert("--tmpfs"@.len() == 7 && "--env"@.len() == 5 && "--env-merge"@.len() == 11);
    assert("--tty"@[2] == 't' && "--env"@[2] == 'e');
    assert("--read-only"@[2] == 'r' && "--env-merge"@[2] == 'e');
    assert("run"@.len() == 3 && "--rm"@.len() == 4 && "--interactive"@.len() == 13);
    assert("--pull=never"@.len() == 12 && "--cap-drop=ALL"@.len() == 14);
    assert("--cap-add=SETUID"@.len() == 16 && "--cap-add=SETGID"@.len() == 16);
    assert("--cap-add=SETPCAP"@.len() == 17 && "--userns=keep-id"@.len() == 16);
    assert("--security-opt=no-new-privileges"@.len() == 32);
    assert("--cap-add=NET_ADMIN"@.len() == 19);
}

/// What the engine reads before the image in the arguments of a session.
pub open spec fn session_reading(launch: Launch<'_>, mounts: Reading) -> Reading {
    let runtime = "/run/user/"@ + crate::text::decimal_text(launch.uid as nat);
    Reading {
        variables: settings(
            text_pairs(launch.config.environment@) + launch.later_variables(),
        ),
        volumes: seq![launch.sandbox@ + ":"@ + launch.config.workspace@ + ":rw,Z"@] + (
        if launch.strategy == CopyStrategy::Worktree {
            seq![
                crate::paths::path_join(
                    crate::paths::path_join(launch.repository@, ".git"@),
                    "objects"@,
                ) + ":/pithos/git-objects:ro,Z"@,
            ]
        } else {
            Seq::empty()
        }) + mounts.volumes + (match launch.audio {
            Some(sound) => seq![sound.volume@],
            None => Seq::empty(),
        }),
        tmpfs: seq![
            "/tmp:rw,mode=1777"@,
            "/home/agent:rw,mode=1777"@,
            runtime + ":rw,mode=1777"@,
        ] + mounts.tmpfs,
        names: seq![launch.container_name@] + mounts.names,
        workdirs: seq![launch.config.workspace@] + mounts.workdirs,
        merges: (if sets_variable(launch.config.environment@, "PATH"@) {
            Seq::empty()
        } else {
            seq![
                "PATH=/home/agent/.local/share/mise/shims:/home/agent/.cargo/bin:/home/agent/.local/bin:${PATH}"@,
            ]
        }) + mounts.merges,
        flags: session_flags() + (if launch.config.networking.enabled {
            seq!["--cap-add=NET_ADMIN"@]
        } else {
            Seq::empty()
        }) + mounts.flags,
    }
}

proof fn lemma_confinement_reads(name: Seq<char>)
    ensures
        reads_as(
            confinement(name),
            Reading { flags: session_flags(), names: seq![name], ..no_reading() },
        ),
{
    lemma_flags_stand_alone();
    lemma_flags_read(session_flags());
    lemma_options_differ();
    lemma_pair_reads("--name"@, name);
    let one = Reading { flags: session_flags(), ..no_reading() };
    let two = of_pair("--name"@, name);
    lemma_reads_add(session_flags(), one, pair("--name"@, name), two);
    assert(session_flags() + pair("--name"@, name) =~= confinement(name));
    lemma_same(
        both(one, two),
        Reading { flags: session_flags(), names: seq![name], ..no_reading() },
    );
}

proof fn lemma_capability_reads(enabled: bool)
    ensures
        ({
            let args = if enabled {
                seq!["--cap-add=NET_ADMIN"@]
            } else {
                Seq::empty()
            };
            reads_as(args, Reading { flags: args, ..no_reading() })
        }),
{
    lemma_flags_stand_alone();
    lemma_nothing_reads();
    if enabled {
        lemma_flag_reads("--cap-add=NET_ADMIN"@);
    }
}

spec fn volumes_of(launch: Launch<'_>) -> Seq<Seq<char>> {
    seq![launch.sandbox@ + ":"@ + launch.config.workspace@ + ":rw,Z"@] + (if launch.strategy
        == CopyStrategy::Worktree {
        seq![
            crate::paths::path_join(
                crate::paths::path_join(launch.repository@, ".git"@),
                "objects"@,
            ) + ":/pithos/git-objects:ro,Z"@,
        ]
    } else {
        Seq::empty()
    })
}

proof fn lemma_volumes_read(launch: Launch<'_>)
    ensures
        reads_as(launch.volumes(), Reading { volumes: volumes_of(launch), ..no_reading() }),
{
    lemma_options_differ();
    let first = launch.sandbox@ + ":"@ + launch.config.workspace@ + ":rw,Z"@;
    let one = of_pair("--volume"@, first);
    lemma_pair_reads("--volume"@, first);
    lemma_nothing_reads();
    if launch.strategy == CopyStrategy::Worktree {
        let objects = crate::paths::path_join(
            crate::paths::path_join(launch.repository@, ".git"@),
            "objects"@,
        );
        let second = objects + ":/pithos/git-objects:ro,Z"@;
        reveal_strlit(":");
        reveal_strlit("/pithos/git-objects");
        reveal_strlit(":ro,Z");
        reveal_strlit(":/pithos/git-objects:ro,Z");
        assert(objects + (":"@ + crate::workspace::CONTAINER_GIT_OBJECTS@ + ":ro,Z"@) =~= second);
        lemma_pair_reads("--volume"@, second);
        let two = of_pair("--volume"@, second);
        lemma_reads_add(
            pair("--volume"@, first),
            one,
            pair("--volume"@, second),
            two,
        );
        lemma_same(both(one, two), Reading { volumes: volumes_of(launch), ..no_reading() });
    } else {
        lemma_reads_add(pair("--volume"@, first), one, Seq::empty(), no_reading());
        lemma_same(
            both(one, no_reading()),
            Reading { volumes: volumes_of(launch), ..no_reading() },
        );
    }
}

proof fn lemma_workdir_reads(dir: Seq<char>)
    ensures
        reads_as(pair("--workdir"@, dir), Reading { workdirs: seq![dir], ..no_reading() }),
{
    lemma_options_differ();
    lemma_pair_reads("--workdir"@, dir);
    lemma_same(of_pair("--workdir"@, dir), Reading { workdirs: seq![dir], ..no_reading() });
}

spec fn merges_of(launch: Launch<'_>) -> Seq<Seq<char>> {
    if sets_variable(launch.config.environment@, "PATH"@) {
        Seq::empty()
    } else {
        seq![
            "PATH=/home/agent/.local/share/mise/shims:/home/agent/.cargo/bin:/home/agent/.local/bin:${PATH}"@,
        ]
    }
}

proof fn lemma_merge_reads(launch: Launch<'_>)
    ensures
        ({
            let args = if sets_variable(launch.config.environment@, "PATH"@) {
                Seq::empty()
            } else {
                path_merge()
            };
            reads_as(args, Reading { merges: merges_of(launch), ..no_reading() })
        }),
{
    lemma_options_differ();
    lemma_nothing_reads();
    if !sets_variable(launch.config.environment@, "PATH"@) {
        let value =
            "PATH=/home/agent/.local/share/mise/shims:/home/agent/.cargo/bin:/home/agent/.local/bin:${PATH}"@;
        lemma_pair_reads("--env-merge"@, value);
        lemma_same(
            of_pair("--env-merge"@, value),
            Reading { merges: seq![value], ..no_reading() },
        );
    }
}

spec fn sound_of(launch: Launch<'_>) -> Seq<Seq<char>> {
    match launch.audio {
        Some(sound) => seq![sound.volume@],
        None => Seq::empty(),
    }
}

proof fn lemma_sound_reads(launch: Launch<'_>)
    ensures
        reads_as(launch.audio_volume(), Reading { volumes: sound_of(launch), ..no_reading() }),
{
    lemma_options_differ();
    lemma_nothing_reads();
    if let Some(sound) = launch.audio {
        lemma_pair_reads("--volume"@, sound.volume@);
        lemma_same(
            of_pair("--volume"@, sound.volume@),
            Reading { volumes: seq![sound.volume@], ..no_reading() },
        );
    }
}

proof fn lemma_settings_add(
    first: Seq<(Seq<char>, Seq<char>)>,
    second: Seq<(Seq<char>, Seq<char>)>,
)
    ensures
        settings(first + second) == settings(first) + settings(second),
{
    assert(settings(first + second) =~= settings(first) + settings(second));
}

spec fn flags_of(launch: Launch<'_>) -> Seq<Seq<char>> {
    session_flags() + (if launch.config.networking.enabled {
        seq!["--cap-add=NET_ADMIN"@]
    } else {
        Seq::empty()
    })
}

spec fn tmpfs_of(launch: Launch<'_>) -> Seq<Seq<char>> {
    seq![
        "/tmp:rw,mode=1777"@,
        "/home/agent:rw,mode=1777"@,
        "/run/user/"@ + crate::text::decimal_text(launch.uid as nat) + ":rw,mode=1777"@,
    ]
}

/// The first part of the arguments: all that stands before the variables.
spec fn front_args(launch: Launch<'_>) -> Seq<Seq<char>> {
    confinement(launch.container_name@) + (if launch.config.networking.enabled {
        seq!["--cap-add=NET_ADMIN"@]
    } else {
        Seq::empty()
    }) + launch.volumes() + pair("--workdir"@, launch.config.workspace@) + tmpfs_args("/tmp"@)
        + tmpfs_args(crate::platform::AGENT_HOME@) + tmpfs_args(
        crate::audio::guest_dir(launch.uid as nat),
    )
}

spec fn front_reading(launch: Launch<'_>) -> Reading {
    Reading {
        variables: Seq::empty(),
        volumes: volumes_of(launch),
        tmpfs: tmpfs_of(launch),
        names: seq![launch.container_name@],
        workdirs: seq![launch.config.workspace@],
        merges: Seq::empty(),
        flags: flags_of(launch),
    }
}

proof fn lemma_front_reads(launch: Launch<'_>)
    ensures
        reads_as(front_args(launch), front_reading(launch)),
{
    let name = launch.container_name@;
    let dir = launch.config.workspace@;
    let a = confinement(name);
    let ra = Reading { flags: session_flags(), names: seq![name], ..no_reading() };
    lemma_confinement_reads(name);
    let capability = if launch.config.networking.enabled {
        seq!["--cap-add=NET_ADMIN"@]
    } else {
        Seq::empty()
    };
    lemma_capability_reads(launch.config.networking.enabled);
    let rb = Reading { flags: flags_of(launch), names: seq![name], ..no_reading() };
    lemma_append(a, ra, capability, Reading { flags: capability, ..no_reading() }, rb);
    let b = a + capability;
    lemma_volumes_read(launch);
    let rc = Reading { volumes: volumes_of(launch), ..rb };
    lemma_append(
        b,
        rb,
        launch.volumes(),
        Reading { volumes: volumes_of(launch), ..no_reading() },
        rc,
    );
    let c = b + launch.volumes();
    lemma_workdir_reads(dir);
    let rd = Reading { workdirs: seq![dir], ..rc };
    lemma_append(
        c,
        rc,
        pair("--workdir"@, dir),
        Reading { workdirs: seq![dir], ..no_reading() },
        rd,
    );
    let d = c + pair("--workdir"@, dir);
    lemma_all_tmpfs_read(launch, d, rd);
    lemma_same(Reading { tmpfs: rd.tmpfs + tmpfs_of(launch), ..rd }, front_reading(launch));
}

proof fn lemma_all_tmpfs_read(launch: Launch<'_>, before: Seq<Seq<char>>, reading: Reading)
    requires
        reads_as(before, reading),
    ensures
        reads_as(
            before + tmpfs_args("/tmp"@) + tmpfs_args(crate::platform::AGENT_HOME@) + tmpfs_args(
                crate::audio::guest_dir(launch.uid as nat),
            ),
            Reading { tmpfs: reading.tmpfs + tmpfs_of(launch), ..reading },
        ),
{
    reveal_strlit("/tmp");
    reveal_strlit("/home/agent");
    reveal_strlit(":rw,mode=1777");
    reveal_strlit("/tmp:rw,mode=1777");
    reveal_strlit("/home/agent:rw,mode=1777");
    let end = ":rw,mode=1777"@;
    let home = crate::platform::AGENT_HOME@;
    let guest = crate::audio::guest_dir(launch.uid as nat);
    assert("/tmp"@ + end =~= "/tmp:rw,mode=1777"@);
    assert(home + end =~= "/home/agent:rw,mode=1777"@);
    lemma_tmpfs_reads("/tmp"@);
    lemma_tmpfs_reads(home);
    lemma_tmpfs_reads(guest);
    let r1 = Reading { tmpfs: reading.tmpfs + seq!["/tmp"@ + end], ..reading };
    lemma_append(
        before,
        reading,
        tmpfs_args("/tmp"@),
        Reading { tmpfs: seq!["/tmp"@ + end], ..no_reading() },
        r1,
    );
    let r2 = Reading { tmpfs: r1.tmpfs + seq![home + end], ..reading };
    let a1 = before + tmpfs_args("/tmp"@);
    lemma_append(
        a1,
        r1,
        tmpfs_args(home),
        Reading { tmpfs: seq![home + end], ..no_reading() },
        r2,
    );
    let r3 = Reading { tmpfs: r2.tmpfs + seq![guest + end], ..reading };
    let a2 = a1 + tmpfs_args(home);
    lemma_append(
        a2,
        r2,
        tmpfs_args(guest),
        Reading { tmpfs: seq![guest + end], ..no_reading() },
        r3,
    );
    lemma_same(r3, Reading { tmpfs: reading.tmpfs + tmpfs_of(launch), ..reading });
}

proof fn lemma_append_variables(
    before: Seq<Seq<char>>,
    reading: Reading,
    so_far: Seq<(Seq<char>, Seq<char>)>,
    list: Seq<(Seq<char>, Seq<char>)>,
)
    requires
        reads_as(before, reading),
        reading.variables == settings(so_far),
    ensures
        reads_as(
            before + env_args(list),
            Reading { variables: settings(so_far + list), ..reading },
        ),
{
    lemma_variables_read(list);
    lemma_settings_add(so_far, list);
    lemma_append(
        before,
        reading,
        env_args(list),
        Reading { variables: settings(list), ..no_reading() },
        Reading { variables: settings(so_far + list), ..reading },
    );
}

/// A launch is read by the engine as what its fields say. The one image that
/// it names stands last. Before it, the session runs confined, and may
/// administer its network only where the configuration filters it; it has the
/// workspace, for a shared clone the objects of the repository read-only, what
/// the harness mounts, and the sound server's socket; the configured variables
/// come first, and then the session's own.
pub proof fn lemma_launch_reads(launch: Launch<'_>, mounts: Reading)
    requires
        reading_of(texts(launch.mounts@)) == Some(mounts),
        mounts.variables.len() == 0,
    ensures
        launch.line().len() > 0,
        launch.line().last() == launch.config.tag_text(),
        reading_of(launch.line().drop_last()) == Some(session_reading(launch, mounts)),
{
    let config = launch.config;
    let environment = config.environment@;
    let configured = text_pairs(environment);
    let fixed = launch.fixed_variables();
    let own = not_set(launch.own_variables(), environment);
    let harness = config.harness.environment_pairs();
    let terminal = not_set(text_pairs(launch.terminal@), environment);
    let audio = not_set(launch.audio_variables(), environment);
    let none = Seq::<(Seq<char>, Seq<char>)>::empty();
    let a0 = front_args(launch);
    let r0 = front_reading(launch);
    lemma_front_reads(launch);
    assert(settings(none) =~= Seq::empty());
    lemma_append_variables(a0, r0, none, configured);
    let v1 = none + configured;
    let r1 = Reading { variables: settings(v1), ..r0 };
    let a1 = a0 + env_args(configured);
    lemma_append_variables(a1, r1, v1, fixed);
    let v2 = v1 + fixed;
    let r2 = Reading { variables: settings(v2), ..r0 };
    let a2 = a1 + env_args(fixed);
    lemma_append_variables(a2, r2, v2, own);
    let v3 = v2 + own;
    let r3 = Reading { variables: settings(v3), ..r0 };
    let a3 = a2 + env_args(own);
    let merge = if sets_variable(environment, "PATH"@) {
        Seq::empty()
    } else {
        path_merge()
    };
    lemma_merge_reads(launch);
    let r4 = Reading { merges: merges_of(launch), ..r3 };
    lemma_append(
        a3,
        r3,
        merge,
        Reading { merges: merges_of(launch), ..no_reading() },
        r4,
    );
    let a4 = a3 + merge;
    lemma_append_variables(a4, r4, v3, harness);
    let v5 = v3 + harness;
    let r5 = Reading { variables: settings(v5), ..r4 };
    let a5 = a4 + env_args(harness);
    lemma_append_variables(a5, r5, v5, terminal);
    let v6 = v5 + terminal;
    let r6 = Reading { variables: settings(v6), ..r4 };
    let a6 = a5 + env_args(terminal);
    assert(reads_as(texts(launch.mounts@), mounts)) by {
        reveal(reads_as);
    }
    let r7 = Reading {
        volumes: r6.volumes + mounts.volumes,
        tmpfs: r6.tmpfs + mounts.tmpfs,
        names: r6.names + mounts.names,
        workdirs: r6.workdirs + mounts.workdirs,
        merges: r6.merges + mounts.merges,
        flags: r6.flags + mounts.flags,
        ..r6
    };
    lemma_append(a6, r6, texts(launch.mounts@), mounts, r7);
    let a7 = a6 + texts(launch.mounts@);
    lemma_sound_reads(launch);
    let r8 = Reading { volumes: r7.volumes + sound_of(launch), ..r7 };
    lemma_append(
        a7,
        r7,
        launch.audio_volume(),
        Reading { volumes: sound_of(launch), ..no_reading() },
        r8,
    );
    let a8 = a7 + launch.audio_volume();
    lemma_append_variables(a8, r8, v6, audio);
    let v9 = v6 + audio;
    let r9 = Reading { variables: settings(v9), ..r8 };
    let a9 = a8 + env_args(audio);
    assert(v9 =~= configured + launch.later_variables());
    lemma_same(r9, session_reading(launch, mounts));
    assert(launch.line() == a9 + seq![config.tag_text()]);
    assert(launch.line().drop_last() =~= a9);
    reveal(reads_as);
}

/// Before their last one, the arguments hold `--env` directly followed by
/// `KEY=value`.
pub open spec fn sets_in(args: Seq<Seq<char>>, key: Seq<char>, value: Seq<char>) -> bool {
    exists|i: int| #[trigger] set_at(args, i, key, value)
}

pub open spec fn set_at(args: Seq<Seq<char>>, i: int, key: Seq<char>, value: Seq<char>) -> bool {
    0 <= i && i + 2 < args.len() && args[i] == "--env"@ && args[i + 1] == key + "="@ + value
}

proof fn lemma_env_at(list: Seq<(Seq<char>, Seq<char>)>, j: int)
    requires
        0 <= j < list.len(),
    ensures
        env_args(list).len() == 2 * list.len(),
        env_args(list)[2 * j] == "--env"@,
        env_args(list)[2 * j + 1] == list[j].0 + "="@ + list[j].1,
    decreases list.len(),
{
    let front = list.drop_last();
    if list.len() > 1 {
        lemma_env_at(front, if j < front.len() {
            j
        } else {
            0
        });
    } else {
        assert(front =~= Seq::empty());
        assert(env_args(front) =~= Seq::empty());
    }
}

proof fn lemma_set_inside(
    before: Seq<Seq<char>>,
    list: Seq<(Seq<char>, Seq<char>)>,
    after: Seq<Seq<char>>,
    key: Seq<char>,
    value: Seq<char>,
)
    requires
        list.contains((key, value)),
        after.len() > 0,
    ensures
        sets_in(before + env_args(list) + after, key, value),
{
    let j = choose|j: int| 0 <= j < list.len() && list[j] == (key, value);
    lemma_env_at(list, j);
    assert(set_at(before + env_args(list) + after, before.len() + 2 * j, key, value));
}

/// A variable that the configuration does not set stays in the list.
proof fn lemma_not_set_keeps(
    list: Seq<(Seq<char>, Seq<char>)>,
    environment: Seq<(String, String)>,
    key: Seq<char>,
    value: Seq<char>,
)
    requires
        list.contains((key, value)),
        !sets_variable(environment, key),
    ensures
        not_set(list, environment).contains((key, value)),
    decreases list.len(),
{
    let front = list.drop_last();
    let before = not_set(front, environment);
    let after = not_set(list, environment);
    if list.last() == (key, value) {
        assert(after[before.len() as int] == (key, value));
    } else {
        let i = choose|i: int| 0 <= i < list.len() && list[i] == (key, value);
        assert(front[i] == (key, value));
        lemma_not_set_keeps(front, environment, key, value);
        let j = choose|j: int| 0 <= j < before.len() && before[j] == (key, value);
        assert(after[j] == (key, value));
    }
}

/// What a session is to find in its environment: what is configured, what the
/// harness asks for, the agent's home and identity, and, where they are not
/// configured, the runtime directory, the package managers' directories, the
/// terminal's variables and those of the sound server.
pub open spec fn owed(launch: Launch<'_>, key: Seq<char>, value: Seq<char>) -> bool {
    let open = !sets_variable(launch.config.environment@, key);
    ||| exists|i: int|
        0 <= i < launch.config.environment@.len() && (#[trigger] launch.config.environment@[i]).0@
            == key && launch.config.environment@[i].1@ == value
    ||| launch.config.harness.environment_pairs().contains((key, value))
    ||| key == "HOME"@ && value == "/home/agent"@
    ||| key == "PITHOS_AGENT_UID"@ && value == crate::text::decimal_text(launch.uid as nat)
    ||| key == "PITHOS_AGENT_GID"@ && value == crate::text::decimal_text(launch.gid as nat)
    ||| open && key == "XDG_RUNTIME_DIR"@ && value == "/run/user/"@ + crate::text::decimal_text(
        launch.uid as nat,
    )
    ||| open && key == "CARGO_HOME"@ && value == "/home/agent/.cargo"@
    ||| open && key == "NPM_CONFIG_PREFIX"@ && value == "/home/agent/.local"@
    ||| open && exists|i: int|
        0 <= i < launch.terminal@.len() && (#[trigger] launch.terminal@[i]).0@ == key
            && launch.terminal@[i].1@ == value
    ||| open && launch.audio is Some && exists|i: int|
        0 <= i < launch.audio->Some_0.env@.len() && (
        #[trigger] launch.audio->Some_0.env@[i]).0@ == key && launch.audio->Some_0.env@[i].1@
            == value
}

proof fn lemma_own_values()
    ensures
        crate::platform::AGENT_HOME@ + "/.cargo"@ == "/home/agent/.cargo"@,
        crate::platform::AGENT_HOME@ + "/.local"@ == "/home/agent/.local"@,
{
    reveal_strlit("/home/agent");
    reveal_strlit("/.cargo");
    reveal_strlit("/.local");
    reveal_strlit("/home/agent/.cargo");
    reveal_strlit("/home/agent/.local");
    assert(crate::platform::AGENT_HOME@ + "/.cargo"@ =~= "/home/agent/.cargo"@);
    assert(crate::platform::AGENT_HOME@ + "/.local"@ =~= "/home/agent/.local"@);
}

/// Which list of variables holds one that is owed.
spec fn listed(launch: Launch<'_>, n: int) -> Seq<(Seq<char>, Seq<char>)> {
    let environment = launch.config.environment@;
    if n == 0 {
        text_pairs(environment)
    } else if n == 1 {
        launch.fixed_variables()
    } else if n == 2 {
        not_set(launch.own_variables(), environment)
    } else if n == 3 {
        launch.config.harness.environment_pairs()
    } else if n == 4 {
        not_set(text_pairs(launch.terminal@), environment)
    } else {
        not_set(launch.audio_variables(), environment)
    }
}

proof fn lemma_owed_is_listed(launch: Launch<'_>, key: Seq<char>, value: Seq<char>) -> (n: int)
    requires
        owed(launch, key, value),
    ensures
        0 <= n < 6,
        listed(launch, n).contains((key, value)),
{
    let environment = launch.config.environment@;
    let fixed = launch.fixed_variables();
    let own = launch.own_variables();
    let terminal = text_pairs(launch.terminal@);
    let audio = launch.audio_variables();
    lemma_own_values();
    if exists|i: int|
        0 <= i < environment.len() && (#[trigger] environment[i]).0@ == key && environment[i].1@
            == value {
        let i = choose|i: int|
            0 <= i < environment.len() && (#[trigger] environment[i]).0@ == key
                && environment[i].1@ == value;
        assert(text_pairs(environment)[i] == (key, value));
        0
    } else if launch.config.harness.environment_pairs().contains((key, value)) {
        3
    } else if key == "HOME"@ && value == "/home/agent"@ {
        assert(fixed[0] == (key, value));
        1
    } else if key == "PITHOS_AGENT_UID"@ && value == crate::text::decimal_text(
        launch.uid as nat,
    ) {
        assert(fixed[1] == (key, value));
        1
    } else if key == "PITHOS_AGENT_GID"@ && value == crate::text::decimal_text(
        launch.gid as nat,
    ) {
        assert(fixed[2] == (key, value));
        1
    } else if key == "XDG_RUNTIME_DIR"@ && value == "/run/user/"@ + crate::text::decimal_text(
        launch.uid as nat,
    ) {
        assert(own[0] == (key, value));
        lemma_not_set_keeps(own, environment, key, value);
        2
    } else if key == "CARGO_HOME"@ && value == "/home/agent/.cargo"@ {
        assert(own[1] == (key, value));
        lemma_not_set_keeps(own, environment, key, value);
        2
    } else if key == "NPM_CONFIG_PREFIX"@ && value == "/home/agent/.local"@ {
        assert(own[2] == (key, value));
        lemma_not_set_keeps(own, environment, key, value);
        2
    } else if exists|i: int|
        0 <= i < launch.terminal@.len() && (#[trigger] launch.terminal@[i]).0@ == key
            && launch.terminal@[i].1@ == value {
        let i = choose|i: int|
            0 <= i < launch.terminal@.len() && (#[trigger] launch.terminal@[i]).0@ == key
                && launch.terminal@[i].1@ == value;
        assert(terminal[i] == (key, value));
        lemma_not_set_keeps(terminal, environment, key, value);
        4
    } else {
        let env = launch.audio->Some_0.env@;
        let i = choose|i: int|
            0 <= i < env.len() && (#[trigger] env[i]).0@ == key && env[i].1@ == value;
        assert(audio[i] == (key, value));
        lemma_not_set_keeps(audio, environment, key, value);
        5
    }
}

proof fn lemma_regrouped(
    a: Seq<Seq<char>>,
    e0: Seq<Seq<char>>,
    e1: Seq<Seq<char>>,
    e2: Seq<Seq<char>>,
    merge: Seq<Seq<char>>,
    e3: Seq<Seq<char>>,
    e4: Seq<Seq<char>>,
    mounts: Seq<Seq<char>>,
    sound: Seq<Seq<char>>,
    e5: Seq<Seq<char>>,
    tag: Seq<Seq<char>>,
)
    ensures
        ({
            let whole = a + e0 + e1 + e2 + merge + e3 + e4 + mounts + sound + e5 + tag;
            let rest = merge + e3 + e4 + mounts + sound + e5 + tag;
            &&& whole == a + e0 + (e1 + e2 + rest)
            &&& whole == a + e0 + e1 + (e2 + rest)
            &&& whole == a + e0 + e1 + e2 + rest
            &&& whole == a + e0 + e1 + e2 + merge + e3 + (e4 + mounts + sound + e5 + tag)
            &&& whole == a + e0 + e1 + e2 + merge + e3 + e4 + (mounts + sound + e5 + tag)
        }),
{
    let whole = a + e0 + e1 + e2 + merge + e3 + e4 + mounts + sound + e5 + tag;
    let rest = merge + e3 + e4 + mounts + sound + e5 + tag;
    assert(whole =~= a + e0 + (e1 + e2 + rest));
    assert(whole =~= a + e0 + e1 + (e2 + rest));
    assert(whole =~= a + e0 + e1 + e2 + rest);
    assert(whole =~= a + e0 + e1 + e2 + merge + e3 + (e4 + mounts + sound + e5 + tag));
    assert(whole =~= a + e0 + e1 + e2 + merge + e3 + e4 + (mounts + sound + e5 + tag));
}

spec fn merge_args(launch: Launch<'_>) -> Seq<Seq<char>> {
    if sets_variable(launch.config.environment@, "PATH"@) {
        Seq::empty()
    } else {
        path_merge()
    }
}

proof fn lemma_line_parts(launch: Launch<'_>)
    ensures
        launch.line() == front_args(launch) + env_args(listed(launch, 0)) + env_args(
            listed(launch, 1),
        ) + env_args(listed(launch, 2)) + merge_args(launch) + env_args(listed(launch, 3))
            + env_args(listed(launch, 4)) + texts(launch.mounts@) + launch.audio_volume()
            + env_args(listed(launch, 5)) + seq![launch.config.tag_text()],
{
}

/// Every variable that a session is owed is set by `--env`, before the image.
pub proof fn lemma_launch_sets_variables(launch: Launch<'_>, key: Seq<char>, value: Seq<char>)
    requires
        owed(launch, key, value),
    ensures
        sets_in(launch.line(), key, value),
{
    let n = lemma_owed_is_listed(launch, key, value);
    lemma_line_parts(launch);
    lemma_set_in_parts(
        front_args(launch),
        listed(launch, 0),
        listed(launch, 1),
        listed(launch, 2),
        merge_args(launch),
        listed(launch, 3),
        listed(launch, 4),
        texts(launch.mounts@),
        launch.audio_volume(),
        listed(launch, 5),
        seq![launch.config.tag_text()],
        key,
        value,
    );
}

proof fn lemma_set_in_parts(
    a: Seq<Seq<char>>,
    v0: Seq<(Seq<char>, Seq<char>)>,
    v1: Seq<(Seq<char>, Seq<char>)>,
    v2: Seq<(Seq<char>, Seq<char>)>,
    merge: Seq<Seq<char>>,
    v3: Seq<(Seq<char>, Seq<char>)>,
    v4: Seq<(Seq<char>, Seq<char>)>,
    mounts: Seq<Seq<char>>,
    sound: Seq<Seq<char>>,
    v5: Seq<(Seq<char>, Seq<char>)>,
    tag: Seq<Seq<char>>,
    key: Seq<char>,
    value: Seq<char>,
)
    requires
        tag.len() > 0,
        v0.contains((key, value)) || v1.contains((key, value)) || v2.contains((key, value))
            || v3.contains((key, value)) || v4.contains((key, value)) || v5.contains((key, value)),
    ensures
        sets_in(
            a + env_args(v0) + env_args(v1) + env_args(v2) + merge + env_args(v3) + env_args(v4)
                + mounts + sound + env_args(v5) + tag,
            key,
            value,
        ),
{
    let e0 = env_args(v0);
    let e1 = env_args(v1);
    let e2 = env_args(v2);
    let e3 = env_args(v3);
    let e4 = env_args(v4);
    let e5 = env_args(v5);
    lemma_regrouped(a, e0, e1, e2, merge, e3, e4, mounts, sound, e5, tag);
    let rest = merge + e3 + e4 + mounts + sound + e5 + tag;
    if v0.contains((key, value)) {
        lemma_set_inside(a, v0, e1 + e2 + rest, key, value);
    } else if v1.contains((key, value)) {
        lemma_set_inside(a + e0, v1, e2 + rest, key, value);
    } else if v2.contains((key, value)) {
        lemma_set_inside(a + e0 + e1, v2, rest, key, value);
    } else if v3.contains((key, value)) {
        lemma_set_inside(
            a + e0 + e1 + e2 + merge,
            v3,
            e4 + mounts + sound + e5 + tag,
            key,
            value,
        );
    } else if v4.contains((key, value)) {
        lemma_set_inside(
            a + e0 + e1 + e2 + merge + e3,
            v4,
            mounts + sound + e5 + tag,
            key,
            value,
        );
    } else {
        lemma_set_inside(
            a + e0 + e1 + e2 + merge + e3 + e4 + mounts + sound,
            v5,
            tag,
            key,
            value,
        );
    }
}

proof fn lemma_not_set_comes_from(
    list: Seq<(Seq<char>, Seq<char>)>,
    environment: Seq<(String, String)>,
    key: Seq<char>,
    value: Seq<char>,
)
    requires
        not_set(list, environment).contains((key, value)),
    ensures
        list.contains((key, value)),
        !sets_variable(environment, key),
    decreases list.len(),
{
    let front = list.drop_last();
    let before = not_set(front, environment);
    let after = not_set(list, environment);
    let j = choose|j: int| 0 <= j < after.len() && after[j] == (key, value);
    if j < before.len() {
        assert(before[j] == (key, value));
        lemma_not_set_comes_from(front, environment, key, value);
        let i = choose|i: int| 0 <= i < front.len() && front[i] == (key, value);
        assert(list[i] == (key, value));
    } else {
        assert(list[list.len() - 1] == (key, value));
    }
}

/// A session is given no variable that it is not owed.
pub proof fn lemma_only_owed_variables(launch: Launch<'_>, key: Seq<char>, value: Seq<char>)
    requires
        launch.later_variables().contains((key, value)),
    ensures
        owed(launch, key, value),
{
    lemma_own_values();
    let environment = launch.config.environment@;
    let a = listed(launch, 1);
    let b = listed(launch, 2);
    let c = listed(launch, 3);
    let d = listed(launch, 4);
    let e = listed(launch, 5);
    let all = launch.later_variables();
    assert(all == a + b + c + d + e);
    let i = choose|i: int| 0 <= i < all.len() && all[i] == (key, value);
    if i < a.len() {
        assert(a[i] == (key, value));
    } else if i < a.len() + b.len() {
        assert(b[i - a.len()] == (key, value));
        lemma_not_set_comes_from(launch.own_variables(), environment, key, value);
    } else if i < a.len() + b.len() + c.len() {
        assert(c[i - a.len() - b.len()] == (key, value));
    } else if i < a.len() + b.len() + c.len() + d.len() {
        assert(d[i - a.len() - b.len() - c.len()] == (key, value));
        let list = text_pairs(launch.terminal@);
        lemma_not_set_comes_from(list, environment, key, value);
        let j = choose|j: int| 0 <= j < list.len() && list[j] == (key, value);
        assert(launch.terminal@[j].0@ == key);
    } else {
        assert(e[i - a.len() - b.len() - c.len() - d.len()] == (key, value));
        let list = launch.audio_variables();
        lemma_not_set_comes_from(list, environment, key, value);
        let j = choose|j: int| 0 <= j < list.len() && list[j] == (key, value);
        assert(launch.audio->Some_0.env@[j].0@ == key);
    }
}

/// An OpenCode session with an allowlist is owed the configuration that holds
/// the allowlist as its permissions; no other harness asks for a variable.
pub proof fn lemma_harness_variables(harness: &crate::builtin::Harness)
    ensures
        (match harness {
            crate::builtin::Harness::Opencode { allowlist: Some(list), .. } => {
                &&& harness.environment_pairs().len() == 1
                &&& harness.environment_pairs()[0].0 == "OPENCODE_CONFIG_CONTENT"@
                &&& harness.environment_pairs()[0].1 == crate::json::json_compact(
                    crate::json::JsonTree::Object(
                        seq![
                            (
                                "permission"@,
                                crate::json::JsonTree::Object(
                                    crate::json::member_trees(list@),
                                ),
                            ),
                        ],
                    ),
                )
            },
            _ => harness.environment_pairs().len() == 0,
        }),
{
}

} // verus!
