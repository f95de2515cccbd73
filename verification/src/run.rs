//! Starting a session: who may start one, how its container is run, and what
//! happens with its changes at the end.

use crate::attach::{env_args, env_pair, push_env, push_env_all};
use crate::audio::{guest_dir, Passthrough};
use crate::config::{has_variable, sets_variable, Config};
use crate::platform::{AGENT_GID_ENV, AGENT_HOME, AGENT_UID_ENV};
use crate::podman::{pair, push_all, push_pair, push_text, push_tmpfs, tmpfs_args};
use crate::text::{cat2, cat3, cat4, decimal, decimal_text, text_pairs, texts};
use crate::workspace::{worktree_volume_arg, CopyStrategy};
use vstd::prelude::*;
use vstd::string::*;

verus! {

/// Why no session can be started here.
pub open spec fn start_problem(is_repository: bool, uid: u32) -> Option<Seq<char>> {
    if !is_repository {
        Some("current directory is not a git repository"@)
    } else if uid == 0 {
        Some(
            "pithos sessions require a non-root host user; running as root would leave system paths writable inside the sandbox"@,
        )
    } else {
        None
    }
}

/// Sessions are started in a repository, and not by root.
pub fn check_start(is_repository: bool, uid: u32) -> (r: Result<(), String>)
    ensures
        (match r {
            Ok(_) => start_problem(is_repository, uid) is None,
            Err(message) => start_problem(is_repository, uid) == Some(message@),
        }),
{
    if !is_repository {
        Err("current directory is not a git repository".to_owned())
    } else if uid == 0 {
        Err(
            "pithos sessions require a non-root host user; running as root would leave system paths writable inside the sandbox".to_owned(),
        )
    } else {
        Ok(())
    }
}

/// The two standing answers exclude each other.
pub fn check_answers(yes: bool, no: bool) -> (r: Result<(), String>)
    ensures
        r is Ok <==> !(yes && no),
        r matches Err(message) ==> message@ == "--yes and --no cannot be combined"@,
{
    if yes && no {
        Err("--yes and --no cannot be combined".to_owned())
    } else {
        Ok(())
    }
}

pub open spec fn user_of(uid: u32, gid: u32) -> Seq<char> {
    decimal_text(uid as nat) + ":"@ + decimal_text(gid as nat)
}

/// The identity under which commands run in the container.
pub fn user_text(uid: u32, gid: u32) -> (r: String)
    ensures
        r@ == user_of(uid, gid),
{
    let user = decimal(uid as u64);
    let group = decimal(gid as u64);
    cat3(user.as_str(), ":", group.as_str())
}

/// The variables that point package managers at the session's home, so that
/// what is installed goes with the session.
pub open spec fn live_tier() -> Seq<(Seq<char>, Seq<char>)> {
    seq![("CARGO_HOME"@, AGENT_HOME@ + "/.cargo"@), ("NPM_CONFIG_PREFIX"@, AGENT_HOME@ + "/.local"@)]
}

pub fn live_tier_env() -> (r: Vec<(String, String)>)
    ensures
        text_pairs(r@) == live_tier(),
{
    let r = vec![
        ("CARGO_HOME".to_owned(), cat2(AGENT_HOME, "/.cargo")),
        ("NPM_CONFIG_PREFIX".to_owned(), cat2(AGENT_HOME, "/.local")),
    ];
    assert(text_pairs(r@) =~= live_tier());
    r
}

/// Those of `list` that the configuration does not set.
pub open spec fn not_set(
    list: Seq<(Seq<char>, Seq<char>)>,
    environment: Seq<(String, String)>,
) -> Seq<(Seq<char>, Seq<char>)>
    decreases list.len(),
{
    if list.len() == 0 {
        Seq::empty()
    } else if sets_variable(environment, list.last().0) {
        not_set(list.drop_last(), environment)
    } else {
        not_set(list.drop_last(), environment).push(list.last())
    }
}

fn push_env_not_set(
    args: &mut Vec<String>,
    list: &Vec<(String, String)>,
    environment: &Vec<(String, String)>,
)
    ensures
        texts(final(args)@) == texts(old(args)@) + env_args(
            not_set(text_pairs(list@), environment@),
        ),
{
    let ghost all = text_pairs(list@);
    let ghost start = texts(args@);
    let mut i: usize = 0;
    assert(all.take(0) =~= Seq::empty());
    assert(start + Seq::<Seq<char>>::empty() =~= start);
    while i < list.len()
        invariant
            i <= list@.len(),
            all == text_pairs(list@),
            texts(args@) == start + env_args(not_set(all.take(i as int), environment@)),
        decreases list@.len() - i,
    {
        let ghost so_far = not_set(all.take(i as int), environment@);
        proof {
            assert(all.take(i + 1).drop_last() =~= all.take(i as int));
            assert(all.take(i + 1).last() == all[i as int]);
        }
        if !has_variable(environment, list[i].0.as_str()) {
            push_env(args, list[i].0.as_str(), list[i].1.as_str());
            proof {
                assert(so_far.push(all[i as int]).drop_last() =~= so_far);
                let more = env_pair(all[i as int].0, all[i as int].1);
                assert((start + env_args(so_far)) + more =~= start + (env_args(so_far) + more));
            }
        }
        i += 1;
    }
    assert(all.take(i as int) =~= all);
}

/// What a container is started with.
pub struct Launch<'a> {
    pub config: &'a Config,
    pub container_name: &'a str,
    pub repository: &'a str,
    pub sandbox: &'a str,
    pub strategy: CopyStrategy,
    pub uid: u32,
    pub gid: u32,
    /// The terminal's variables on the host.
    pub terminal: &'a Vec<(String, String)>,
    /// What the harness mounts.
    pub mounts: &'a Vec<String>,
    pub audio: Option<&'a Passthrough>,
}

/// How the container is confined.
pub open spec fn confinement(container_name: Seq<char>) -> Seq<Seq<char>> {
    seq![
        "run"@,
        "--rm"@,
        "--interactive"@,
        "--tty"@,
        "--read-only"@,
        "--pull=never"@,
        "--cap-drop=ALL"@,
        "--cap-add=SETUID"@,
        "--cap-add=SETGID"@,
        "--cap-add=SETPCAP"@,
        "--security-opt=no-new-privileges"@,
        "--userns=keep-id"@,
        "--name"@,
        container_name,
    ]
}

fn confinement_args(container_name: &str) -> (r: Vec<String>)
    ensures
        texts(r@) == confinement(container_name@),
{
    let r = vec![
        "run".to_owned(),
        "--rm".to_owned(),
        "--interactive".to_owned(),
        "--tty".to_owned(),
        "--read-only".to_owned(),
        "--pull=never".to_owned(),
        "--cap-drop=ALL".to_owned(),
        "--cap-add=SETUID".to_owned(),
        "--cap-add=SETGID".to_owned(),
        "--cap-add=SETPCAP".to_owned(),
        "--security-opt=no-new-privileges".to_owned(),
        "--userns=keep-id".to_owned(),
        "--name".to_owned(),
        container_name.to_owned(),
    ];
    assert(texts(r@) =~= confinement(container_name@));
    r
}

pub open spec fn path_merge() -> Seq<Seq<char>> {
    pair(
        "--env-merge"@,
        "PATH=/home/agent/.local/share/mise/shims:/home/agent/.cargo/bin:/home/agent/.local/bin:${PATH}"@,
    )
}

impl<'a> Launch<'a> {
    /// The workspace, and for a shared clone the objects that it needs.
    pub open spec fn volumes(self) -> Seq<Seq<char>> {
        pair("--volume"@, self.sandbox@ + ":"@ + self.config.workspace@ + ":rw,Z"@) + (
        if self.strategy == CopyStrategy::Worktree {
            pair(
                "--volume"@,
                crate::paths::path_join(
                    crate::paths::path_join(self.repository@, ".git"@),
                    "objects"@,
                ) + (":"@ + crate::workspace::CONTAINER_GIT_OBJECTS@ + ":ro,Z"@),
            )
        } else {
            Seq::empty()
        })
    }

    /// The variables that a session sets whatever is configured.
    pub open spec fn fixed_variables(self) -> Seq<(Seq<char>, Seq<char>)> {
        seq![
            ("HOME"@, AGENT_HOME@),
            (AGENT_UID_ENV@, decimal_text(self.uid as nat)),
            (AGENT_GID_ENV@, decimal_text(self.gid as nat)),
        ]
    }

    /// The variables that a session has where they are not configured, but
    /// for those of the terminal and of the sound server.
    pub open spec fn own_variables(self) -> Seq<(Seq<char>, Seq<char>)> {
        seq![("XDG_RUNTIME_DIR"@, guest_dir(self.uid as nat))] + live_tier()
    }

    pub open spec fn audio_variables(self) -> Seq<(Seq<char>, Seq<char>)> {
        match self.audio {
            Some(sound) => text_pairs(sound.env@),
            None => Seq::empty(),
        }
    }

    pub open spec fn audio_volume(self) -> Seq<Seq<char>> {
        match self.audio {
            Some(sound) => pair("--volume"@, sound.volume@),
            None => Seq::empty(),
        }
    }

    /// The variables that follow the configured ones.
    pub open spec fn later_variables(self) -> Seq<(Seq<char>, Seq<char>)> {
        self.fixed_variables() + not_set(self.own_variables(), self.config.environment@)
            + self.config.harness.environment_pairs() + not_set(
            text_pairs(self.terminal@),
            self.config.environment@,
        ) + not_set(self.audio_variables(), self.config.environment@)
    }

    /// The arguments with which podman runs the container.
    pub open spec fn line(self) -> Seq<Seq<char>> {
        confinement(self.container_name@) + (if self.config.networking.enabled {
            seq!["--cap-add=NET_ADMIN"@]
        } else {
            Seq::empty()
        }) + self.volumes() + pair("--workdir"@, self.config.workspace@) + tmpfs_args("/tmp"@)
            + tmpfs_args(AGENT_HOME@) + tmpfs_args(guest_dir(self.uid as nat)) + env_args(
            text_pairs(self.config.environment@),
        ) + env_args(self.fixed_variables()) + env_args(
            not_set(self.own_variables(), self.config.environment@),
        ) + (if sets_variable(self.config.environment@, "PATH"@) {
            Seq::empty()
        } else {
            path_merge()
        }) + env_args(self.config.harness.environment_pairs()) + env_args(
            not_set(text_pairs(self.terminal@), self.config.environment@),
        ) + texts(self.mounts@) + self.audio_volume() + env_args(
            not_set(self.audio_variables(), self.config.environment@),
        ) + seq![self.config.tag_text()]
    }

    fn push_volumes(&self, args: &mut Vec<String>)
        ensures
            texts(final(args)@) == texts(old(args)@) + self.volumes(),
    {
        let ghost start = texts(args@);
        let value = cat4(self.sandbox, ":", self.config.workspace.as_str(), ":rw,Z");
        push_pair(args, "--volume", value.as_str());
        if let Some(volume) = worktree_volume_arg(self.repository, self.strategy) {
            push_pair(args, "--volume", volume.as_str());
        }
        assert(texts(args@) =~= start + self.volumes());
    }

    fn push_audio(&self, args: &mut Vec<String>)
        ensures
            texts(final(args)@) == texts(old(args)@) + self.audio_volume() + env_args(
                not_set(self.audio_variables(), self.config.environment@),
            ),
    {
        match self.audio {
            Some(sound) => {
                push_pair(args, "--volume", sound.volume.as_str());
                push_env_not_set(args, &sound.env, &self.config.environment);
            },
            None => {
                assert(texts(args@) =~= texts(args@) + Seq::<Seq<char>>::empty()
                    + Seq::<Seq<char>>::empty());
            },
        }
    }

    /// Writes out the arguments for podman.
    pub fn args(&self) -> (r: Vec<String>)
        ensures
            texts(r@) == self.line(),
    {
        let environment = &self.config.environment;
        let mut args = confinement_args(self.container_name);
        let ghost first = texts(args@);
        if self.config.networking.enabled {
            push_text(&mut args, "--cap-add=NET_ADMIN");
            assert(texts(args@) =~= first + seq!["--cap-add=NET_ADMIN"@]);
        } else {
            assert(texts(args@) =~= first + Seq::<Seq<char>>::empty());
        }
        self.push_volumes(&mut args);
        push_pair(&mut args, "--workdir", self.config.workspace.as_str());
        push_tmpfs(&mut args, "/tmp");
        push_tmpfs(&mut args, AGENT_HOME);
        let uid = decimal(self.uid as u64);
        let gid = decimal(self.gid as u64);
        let runtime_dir = cat2("/run/user/", uid.as_str());
        push_tmpfs(&mut args, runtime_dir.as_str());
        push_env_all(&mut args, environment);
        let fixed = vec![
            ("HOME".to_owned(), AGENT_HOME.to_owned()),
            (AGENT_UID_ENV.to_owned(), uid),
            (AGENT_GID_ENV.to_owned(), gid),
        ];
        assert(text_pairs(fixed@) =~= self.fixed_variables());
        push_env_all(&mut args, &fixed);
        let mut own = vec![("XDG_RUNTIME_DIR".to_owned(), runtime_dir)];
        let mut tier = live_tier_env();
        let ghost first_own = own@;
        let ghost first_tier = tier@;
        own.append(&mut tier);
        assert(own@ =~= first_own + first_tier);
        assert(text_pairs(own@) =~= self.own_variables()) by {
            assert forall|i: int| 0 <= i < own@.len() implies text_pairs(own@)[i]
                == self.own_variables()[i] by {
                if i > 0 {
                    assert(own@[i] == first_tier[i - 1]);
                    assert(text_pairs(first_tier)[i - 1] == live_tier()[i - 1]);
                }
            }
        }
        push_env_not_set(&mut args, &own, environment);
        let ghost before = texts(args@);
        if has_variable(environment, "PATH") {
            assert(texts(args@) =~= before + Seq::<Seq<char>>::empty());
        } else {
            push_pair(
                &mut args,
                "--env-merge",
                "PATH=/home/agent/.local/share/mise/shims:/home/agent/.cargo/bin:/home/agent/.local/bin:${PATH}",
            );
        }
        let harness = self.config.harness.environment();
        push_env_all(&mut args, &harness);
        push_env_not_set(&mut args, self.terminal, environment);
        push_all(&mut args, self.mounts.as_slice());
        self.push_audio(&mut args);
        let tag = self.config.image_tag();
        let ghost before_tag = texts(args@);
        push_text(&mut args, tag.as_str());
        assert(texts(args@) =~= before_tag + seq![tag@]);
        args
    }
}

proof fn lemma_not_set(list: Seq<(Seq<char>, Seq<char>)>, environment: Seq<(String, String)>)
    ensures
        forall|i: int|
            0 <= i < not_set(list, environment).len() ==> !sets_variable(
                environment,
                (#[trigger] not_set(list, environment)[i]).0,
            ),
    decreases list.len(),
{
    if list.len() > 0 {
        lemma_not_set(list.drop_last(), environment);
        let before = not_set(list.drop_last(), environment);
        let after = not_set(list, environment);
        assert forall|i: int| 0 <= i < after.len() implies !sets_variable(
            environment,
            (#[trigger] after[i]).0,
        ) by {
            if i < before.len() {
                assert(after[i] == before[i]);
            }
        }
    }
}

/// A variable that the configuration sets is given no other value by the
/// session, by the terminal or by the sound server, unless it is the home, the
/// identity or one of the harness's own.
pub proof fn lemma_configured_variable_stays(launch: Launch<'_>, name: Seq<char>)
    requires
        sets_variable(launch.config.environment@, name),
        name != "HOME"@,
        name != AGENT_UID_ENV@,
        name != AGENT_GID_ENV@,
        forall|i: int|
            0 <= i < launch.config.harness.environment_pairs().len() ==> (
            #[trigger] launch.config.harness.environment_pairs()[i]).0 != name,
    ensures
        forall|i: int|
            0 <= i < launch.later_variables().len() ==> (#[trigger] launch.later_variables()[i]).0
                != name,
{
    let environment = launch.config.environment@;
    let first = launch.fixed_variables();
    let second = not_set(launch.own_variables(), environment);
    let third = launch.config.harness.environment_pairs();
    let fourth = not_set(text_pairs(launch.terminal@), environment);
    let fifth = not_set(launch.audio_variables(), environment);
    lemma_not_set(launch.own_variables(), environment);
    lemma_not_set(text_pairs(launch.terminal@), environment);
    lemma_not_set(launch.audio_variables(), environment);
    let all = launch.later_variables();
    assert forall|i: int| 0 <= i < all.len() implies (#[trigger] all[i]).0 != name by {
        let a = first.len() as int;
        let b = a + second.len();
        let c = b + third.len();
        let d = c + fourth.len();
        if i < a {
            assert(all[i] == first[i]);
        } else if i < b {
            assert(all[i] == second[i - a]);
        } else if i < c {
            assert(all[i] == third[i - b]);
        } else if i < d {
            assert(all[i] == fourth[i - c]);
        } else {
            assert(all[i] == fifth[i - d]);
        }
    }
}

/// What happens with the changes when a session ends.
#[derive(Clone, Copy, PartialEq, Eq, Structural, Debug)]
pub enum Closing {
    Apply,
    Discard,
    /// The user is asked.
    Review,
}

/// A standing yes applies, a standing no or no change at all discards.
pub fn closing(auto_yes: bool, auto_no: bool, changed: usize) -> (r: Closing)
    ensures
        r == (if auto_yes {
            Closing::Apply
        } else if auto_no || changed == 0 {
            Closing::Discard
        } else {
            Closing::Review
        }),
{
    if auto_yes {
        Closing::Apply
    } else if auto_no || changed == 0 {
        Closing::Discard
    } else {
        Closing::Review
    }
}

} // verus!
