//! What a definition asks of podman: where things are on the host, and how
//! the container sees them.

use super::def::{mounts, HarnessDef, HarnessDefView, MountDef, MountDefView};
use super::loader::{is_same_place, same_place};
use super::types::{Access, HostBase, HostBaseView, MountType};
use crate::paths::{join_path, path_join};
use crate::podman::{
    push_all, push_prepare, push_tmpfs, push_volume, tmpfs_args, volume_args, HostDirs, MountPlan,
    MountPlanView, Prepare, Prepared,
};
use crate::text::{
    cat3, cat4, cat5, chars_of, drop_leading, drop_trailing, has_prefix, lists, replace_char,
    replaced_char, same_text, starts_with, text_option, texts, trim_end, trim_start, CharSet,
};
use vstd::prelude::*;
use vstd::string::*;

verus! {

/// What a plan depends on besides the definition: the host's directories, the
/// session's, and which of the paths that matter exist.
pub struct Site<'a> {
    pub dirs: &'a HostDirs,
    pub runtime_base: &'a str,
    pub session_id: &'a str,
    pub present: &'a [String],
}

/// A path and the one to fall back to, without repetition.
pub open spec fn one_or_two(own: Option<Seq<char>>, fallback: Option<Seq<char>>) -> Seq<Seq<char>> {
    match (own, fallback) {
        (Some(path), Some(other)) => if same_place(path, other) {
            seq![path]
        } else {
            seq![path, other]
        },
        (Some(path), None) => seq![path],
        (None, Some(other)) => seq![other],
        (None, None) => Seq::empty(),
    }
}

fn both(own: Option<String>, fallback: Option<String>) -> (r: Vec<String>)
    ensures
        texts(r@) == one_or_two(text_option(own), text_option(fallback)),
{
    let mut list: Vec<String> = Vec::new();
    if let Some(path) = own {
        list.push(path);
    }
    if let Some(other) = fallback {
        if list.len() == 0 || !is_same_place(list[0].as_str(), other.as_str()) {
            list.push(other);
        }
    }
    assert(texts(list@) =~= one_or_two(text_option(own), text_option(fallback)));
    list
}

/// A path of an application below a base.
pub open spec fn app_path(base: Seq<char>, app: Seq<char>, host: Seq<char>) -> Seq<char> {
    path_join(path_join(base, app), host)
}

fn in_app(base: &str, app: &str, host: &str) -> (r: String)
    ensures
        r@ == app_path(base@, app@, host@),
{
    let dir = join_path(base, app);
    join_path(dir.as_str(), host)
}

pub open spec fn app_path_in(base: Option<Seq<char>>, app: Seq<char>, host: Seq<char>) -> Option<
    Seq<char>,
> {
    match base {
        Some(dir) => Some(app_path(dir, app, host)),
        None => None,
    }
}

fn in_app_of(base: &Option<String>, app: &str, host: &str) -> (r: Option<String>)
    ensures
        text_option(r) == app_path_in(text_option(*base), app@, host@),
{
    match base {
        Some(dir) => Some(in_app(dir.as_str(), app, host)),
        None => None,
    }
}

/// Below the home directory, where applications keep data, state and caches
/// on Unix.
pub open spec fn home_data(home: Option<Seq<char>>) -> Option<Seq<char>> {
    match home {
        Some(dir) => Some(path_join(path_join(dir, ".local"@), "share"@)),
        None => None,
    }
}

pub open spec fn home_state(home: Option<Seq<char>>) -> Option<Seq<char>> {
    match home {
        Some(dir) => Some(path_join(path_join(dir, ".local"@), "state"@)),
        None => None,
    }
}

pub open spec fn home_cache(home: Option<Seq<char>>) -> Option<Seq<char>> {
    match home {
        Some(dir) => Some(path_join(dir, ".cache"@)),
        None => None,
    }
}

pub open spec fn known_or(list: Seq<Seq<char>>, message: Seq<char>) -> Result<
    Seq<Seq<char>>,
    Seq<char>,
> {
    if list.len() == 0 {
        Err(message)
    } else {
        Ok(list)
    }
}

impl<'a> Site<'a> {
    /// The places where `host` may be, best first.
    pub open spec fn candidates(self, base: HostBaseView, host: Seq<char>) -> Result<
        Seq<Seq<char>>,
        Seq<char>,
    > {
        let home = text_option(self.dirs.home);
        match base {
            HostBaseView::Home => match home {
                Some(dir) => Ok(seq![path_join(dir, host)]),
                None => Err("cannot determine home directory"@),
            },
            HostBaseView::Data(app) => known_or(
                one_or_two(
                    app_path_in(text_option(self.dirs.data), app, host),
                    app_path_in(home_data(home), app, host),
                ),
                "cannot determine data directory"@,
            ),
            HostBaseView::State(app) => known_or(
                one_or_two(
                    app_path_in(text_option(self.dirs.state), app, host),
                    app_path_in(home_state(home), app, host),
                ),
                "cannot determine state directory"@,
            ),
            HostBaseView::Cache(app) => known_or(
                one_or_two(
                    app_path_in(text_option(self.dirs.cache), app, host),
                    app_path_in(home_cache(home), app, host),
                ),
                "cannot determine cache directory"@,
            ),
            HostBaseView::Runtime => Ok(
                seq![path_join(path_join(self.runtime_base@, self.session_id@), host)],
            ),
        }
    }

    fn below_home(&self, first: &str, second: &str) -> (r: Option<String>)
        ensures
            text_option(r) == (match text_option(self.dirs.home) {
                Some(dir) => Some(path_join(path_join(dir, first@), second@)),
                None => None,
            }),
    {
        match &self.dirs.home {
            Some(dir) => {
                let middle = join_path(dir.as_str(), first);
                Some(join_path(middle.as_str(), second))
            },
            None => None,
        }
    }

    /// Lists the places where `host` may be, best first.
    pub fn host_candidates(&self, base: &HostBase, host: &str) -> (r: Result<Vec<String>, String>)
        ensures
            (match r {
                Ok(list) => self.candidates(base@, host@) == Ok::<Seq<Seq<char>>, Seq<char>>(
                    texts(list@),
                ),
                Err(message) => self.candidates(base@, host@) == Err::<Seq<Seq<char>>, Seq<char>>(
                    message@,
                ),
            }),
    {
        match base {
            HostBase::Home => match &self.dirs.home {
                Some(dir) => {
                    let list = vec![join_path(dir.as_str(), host)];
                    assert(texts(list@) =~= seq![path_join(dir@, host@)]);
                    Ok(list)
                },
                None => Err("cannot determine home directory".to_owned()),
            },
            HostBase::Data(app) => {
                let own = in_app_of(&self.dirs.data, app.as_str(), host);
                let shared = self.below_home(".local", "share");
                let fallback = in_app_of(&shared, app.as_str(), host);
                let list = both(own, fallback);
                if list.len() == 0 {
                    Err("cannot determine data directory".to_owned())
                } else {
                    Ok(list)
                }
            },
            HostBase::State(app) => {
                let own = in_app_of(&self.dirs.state, app.as_str(), host);
                let shared = self.below_home(".local", "state");
                let fallback = in_app_of(&shared, app.as_str(), host);
                let list = both(own, fallback);
                if list.len() == 0 {
                    Err("cannot determine state directory".to_owned())
                } else {
                    Ok(list)
                }
            },
            HostBase::Cache(app) => {
                let own = in_app_of(&self.dirs.cache, app.as_str(), host);
                let shared = match &self.dirs.home {
                    Some(dir) => Some(join_path(dir.as_str(), ".cache")),
                    None => None,
                };
                let fallback = in_app_of(&shared, app.as_str(), host);
                let list = both(own, fallback);
                if list.len() == 0 {
                    Err("cannot determine cache directory".to_owned())
                } else {
                    Ok(list)
                }
            },
            HostBase::Runtime => {
                let dir = join_path(self.runtime_base, self.session_id);
                let list = vec![join_path(dir.as_str(), host)];
                assert(texts(list@) =~= seq![
                    path_join(path_join(self.runtime_base@, self.session_id@), host@),
                ]);
                Ok(list)
            },
        }
    }
}

/// The first path that exists, else the first.
pub open spec fn best_of(list: Seq<Seq<char>>, present: Seq<Seq<char>>) -> Seq<char>
    decreases list.len(),
{
    if list.len() == 0 {
        Seq::empty()
    } else {
        match first_present(list, present) {
            Some(path) => path,
            None => list[0],
        }
    }
}

pub open spec fn first_present(list: Seq<Seq<char>>, present: Seq<Seq<char>>) -> Option<Seq<char>>
    decreases list.len(),
{
    if list.len() == 0 {
        None
    } else if present.contains(list[0]) {
        Some(list[0])
    } else {
        first_present(list.skip(1), present)
    }
}

/// Picks the first path that exists, else the first.
pub fn pick_existing(list: &Vec<String>, present: &[String]) -> (r: String)
    ensures
        r@ == best_of(texts(list@), texts(present@)),
{
    let ghost all = texts(list@);
    let mut i: usize = 0;
    assert(all.skip(0) =~= all);
    while i < list.len()
        invariant
            i <= list@.len(),
            all == texts(list@),
            first_present(all, texts(present@)) == first_present(
                all.skip(i as int),
                texts(present@),
            ),
        decreases list@.len() - i,
    {
        assert(all.skip(i as int).skip(1) =~= all.skip(i + 1));
        if lists(present, list[i].as_str()) {
            return list[i].clone();
        }
        i += 1;
    }
    if list.len() == 0 {
        let empty = String::new();
        assert(empty@ =~= Seq::empty());
        empty
    } else {
        list[0].clone()
    }
}

impl<'a> Site<'a> {
    /// Where a mount is on the host; nowhere for one without a path.
    pub open spec fn host_path(self, mount: MountDefView) -> Result<Seq<char>, Seq<char>> {
        if mount.host.len() == 0 {
            Ok(Seq::empty())
        } else {
            match self.candidates(mount.host_base, mount.host) {
                Ok(list) => Ok(best_of(list, texts(self.present@))),
                Err(message) => Err(message),
            }
        }
    }
}

/// Finds a mount on the host.
pub fn resolve_host_path(mount: &MountDef, site: &Site<'_>) -> (r: Result<String, String>)
    ensures
        (match r {
            Ok(path) => site.host_path(mount@) == Ok::<Seq<char>, Seq<char>>(path@),
            Err(message) => site.host_path(mount@) == Err::<Seq<char>, Seq<char>>(message@),
        }),
{
    if mount.host.as_str().is_empty() {
        let nowhere = String::new();
        assert(nowhere@ =~= Seq::empty());
        return Ok(nowhere);
    }
    match site.host_candidates(&mount.host_base, mount.host.as_str()) {
        Ok(list) => Ok(pick_existing(&list, site.present)),
        Err(message) => Err(message),
    }
}

/// Whether `child` lies below `parent` in the container.
pub open spec fn lies_below(parent: Seq<char>, child: Seq<char>) -> bool {
    let bare = drop_trailing(parent, CharSet::One('/'));
    &&& parent.len() > 0
    &&& has_prefix(child, bare)
    &&& child.len() > bare.len()
    &&& child[bare.len() as int] == '/'
}

pub fn is_ancestor_of(parent: &str, child: &str) -> (r: bool)
    ensures
        r == lies_below(parent@, child@),
{
    if parent.is_empty() {
        return false;
    }
    let bare = trim_end(parent, CharSet::One('/'));
    let whole = chars_of(child);
    let length = chars_of(bare.as_str()).len();
    starts_with(child, bare.as_str()) && whole.len() > length && whole[length] == '/'
}

/// A path in the container as the name of a file.
pub open spec fn flat_name(target: Seq<char>) -> Seq<char> {
    drop_leading(
        replaced_char(replaced_char(target, '/', "_"@), '\\', "_"@),
        CharSet::One('_'),
    )
}

pub fn sanitize_target(target: &str) -> (r: String)
    ensures
        r@ == flat_name(target@),
{
    let first = replace_char(target, '/', "_");
    let second = replace_char(first.as_str(), '\\', "_");
    trim_start(second.as_str(), CharSet::One('_'))
}

impl<'a> Site<'a> {
    /// Where an override is put on the host for one session.
    pub open spec fn sink(self, target: Seq<char>) -> Seq<char> {
        path_join(path_join(self.runtime_base@, self.session_id@), flat_name(target))
    }

    pub fn sink_path(&self, def: &HarnessDef) -> (r: Option<String>)
        ensures
            text_option(r) == (if def@.allowlist.takes_override() {
                Some(self.sink(def@.allowlist.target))
            } else {
                None
            }),
    {
        if def.allowlist.has_sink() {
            let dir = join_path(self.runtime_base, self.session_id);
            let name = sanitize_target(def.allowlist.target.as_str());
            Some(join_path(dir.as_str(), name.as_str()))
        } else {
            None
        }
    }

    /// What one mount asks for.
    pub open spec fn effect(
        self,
        def: HarnessDefView,
        mount: MountDefView,
        overridden: bool,
        credentials: bool,
    ) -> Result<MountPlanView, Seq<char>> {
        let nothing = MountPlanView { prepare: Seq::empty(), args: Seq::empty() };
        match mount.mount_type {
            MountType::Ephemeral => if mount.access == Access::Tmpfs {
                Ok(MountPlanView { prepare: Seq::empty(), args: tmpfs_args(mount.target) })
            } else {
                Err(
                    "mount "@ + mount.target + " type ephemeral must have access tmpfs, got "@
                        + mount.access.label_text(),
                )
            },
            MountType::Generated => if def.allowlist.takes_override() && mount.target
                == def.allowlist.target {
                Ok(nothing)
            } else {
                Err(
                    "harness \""@ + def.name + "\" declares a generated mount at "@ + mount.target
                        + " without a matching [allowlist] target; point the sink at the mount target or remove the mount"@,
                )
            },
            _ => match self.host_path(mount) {
                Err(message) => Err(message),
                Ok(host) => {
                    let exists_here = texts(self.present@).contains(host);
                    let config = mount.mount_type == MountType::Config;
                    let secret = mount.mount_type == MountType::Credentials;
                    if (secret && !credentials) || (config && !exists_here) || (config
                        && overridden && lies_below(mount.target, def.allowlist.target)) || (secret
                        && mount.access == Access::Ro && !exists_here) {
                        Ok(nothing)
                    } else {
                        Ok(bound(mount, host))
                    }
                },
            },
        }
    }
}

/// A mount of `host`, which is made first where it has to exist.
pub open spec fn bound(mount: MountDefView, host: Seq<char>) -> MountPlanView {
    match mount.access {
        Access::Ro => MountPlanView {
            prepare: Seq::empty(),
            args: volume_args(host, mount.target, true),
        },
        Access::Pinned => MountPlanView {
            prepare: seq![Prepared::File(host)],
            args: volume_args(host, mount.target, false),
        },
        Access::PinnedDir => MountPlanView {
            prepare: seq![Prepared::Directory(host)],
            args: volume_args(host, mount.target, false),
        },
        Access::Tmpfs => MountPlanView { prepare: Seq::empty(), args: tmpfs_args(mount.target) },
    }
}

pub open spec fn appended(first: MountPlanView, second: MountPlanView) -> MountPlanView {
    MountPlanView { prepare: first.prepare + second.prepare, args: first.args + second.args }
}

impl<'a> Site<'a> {
    /// What a list of mounts asks for, in turn.
    pub open spec fn effects(
        self,
        def: HarnessDefView,
        list: Seq<MountDefView>,
        overridden: bool,
        credentials: bool,
    ) -> Result<MountPlanView, Seq<char>>
        decreases list.len(),
    {
        if list.len() == 0 {
            Ok(MountPlanView { prepare: Seq::empty(), args: Seq::empty() })
        } else {
            match self.effects(def, list.drop_last(), overridden, credentials) {
                Err(message) => Err(message),
                Ok(before) => match self.effect(def, list.last(), overridden, credentials) {
                    Err(message) => Err(message),
                    Ok(more) => Ok(appended(before, more)),
                },
            }
        }
    }

    proof fn lemma_problem_stays(
        self,
        def: HarnessDefView,
        list: Seq<MountDefView>,
        n: int,
        overridden: bool,
        credentials: bool,
    )
        requires
            0 <= n <= list.len(),
            self.effects(def, list.take(n), overridden, credentials) is Err,
        ensures
            self.effects(def, list, overridden, credentials) == self.effects(
                def,
                list.take(n),
                overridden,
                credentials,
            ),
        decreases list.len() - n,
    {
        if n == list.len() {
            assert(list.take(n) =~= list);
        } else {
            assert(list.take(n + 1).drop_last() =~= list.take(n));
            self.lemma_problem_stays(def, list, n + 1, overridden, credentials);
        }
    }

    /// What a harness asks for besides its credentials: its override, then
    /// its mounts.
    pub open spec fn plan(self, def: HarnessDefView, overridden: bool, credentials: bool) -> Result<
        MountPlanView,
        Seq<char>,
    > {
        if overridden && !def.allowlist.takes_override() {
            Err(
                "harness \""@ + def.name
                    + "\" does not declare an [allowlist] sink; remove harness.sandbox_config"@,
            )
        } else {
            match self.effects(def, def.mounts, overridden, credentials) {
                Err(message) => Err(message),
                Ok(plan) => Ok(
                    MountPlanView {
                        prepare: plan.prepare,
                        args: (if overridden {
                            volume_args(
                                self.sink(def.allowlist.target),
                                def.allowlist.target,
                                true,
                            )
                        } else {
                            Seq::empty()
                        }) + plan.args,
                    },
                ),
            }
        }
    }

    fn push_bound(&self, plan: &mut MountPlan, mount: &MountDef, host: String)
        ensures
            final(plan)@ == appended(old(plan)@, bound(mount@, host@)),
    {
        let ghost before = plan@;
        match mount.access {
            Access::Ro => {
                push_volume(&mut plan.args, host.as_str(), mount.target.as_str(), true);
            },
            Access::Pinned => {
                push_volume(&mut plan.args, host.as_str(), mount.target.as_str(), false);
                push_prepare(&mut plan.prepare, Prepare::File(host));
            },
            Access::PinnedDir => {
                push_volume(&mut plan.args, host.as_str(), mount.target.as_str(), false);
                push_prepare(&mut plan.prepare, Prepare::Directory(host));
            },
            Access::Tmpfs => {
                push_tmpfs(&mut plan.args, mount.target.as_str());
            },
        }
        assert(plan@.prepare =~= appended(before, bound(mount@, host@)).prepare);
    }

    fn push_effect(
        &self,
        plan: &mut MountPlan,
        def: &HarnessDef,
        mount: &MountDef,
        overridden: bool,
        credentials: bool,
    ) -> (r: Result<(), String>)
        ensures
            (match r {
                Ok(_) => self.effect(def@, mount@, overridden, credentials) is Ok && final(plan)@
                    == appended(
                    old(plan)@,
                    self.effect(def@, mount@, overridden, credentials)->Ok_0,
                ),
                Err(message) => self.effect(def@, mount@, overridden, credentials) == Err::<
                    MountPlanView,
                    Seq<char>,
                >(message@),
            }),
    {
        let ghost before = plan@;
        assert(before.prepare + Seq::<Prepared>::empty() =~= before.prepare);
        assert(before.args + Seq::<Seq<char>>::empty() =~= before.args);
        match mount.mount_type {
            MountType::Ephemeral => {
                if mount.access != Access::Tmpfs {
                    return Err(
                        cat4(
                            "mount ",
                            mount.target.as_str(),
                            " type ephemeral must have access tmpfs, got ",
                            mount.access.label(),
                        ),
                    );
                }
                push_tmpfs(&mut plan.args, mount.target.as_str());
                Ok(())
            },
            MountType::Generated => {
                if def.allowlist.has_sink() && same_text(
                    mount.target.as_str(),
                    def.allowlist.target.as_str(),
                ) {
                    return Ok(());
                }
                Err(
                    cat5(
                        "harness \"",
                        def.name.as_str(),
                        "\" declares a generated mount at ",
                        mount.target.as_str(),
                        " without a matching [allowlist] target; point the sink at the mount target or remove the mount",
                    ),
                )
            },
            _ => {
                let host = match resolve_host_path(mount, self) {
                    Ok(host) => host,
                    Err(message) => {
                        return Err(message);
                    },
                };
                let exists_here = lists(self.present, host.as_str());
                let config = mount.mount_type == MountType::Config;
                let secret = mount.mount_type == MountType::Credentials;
                if secret && !credentials {
                    return Ok(());
                }
                if config && !exists_here {
                    return Ok(());
                }
                if config && overridden && is_ancestor_of(
                    mount.target.as_str(),
                    def.allowlist.target.as_str(),
                ) {
                    return Ok(());
                }
                if secret && mount.access == Access::Ro && !exists_here {
                    return Ok(());
                }
                self.push_bound(plan, mount, host);
                Ok(())
            },
        }
    }

    /// Writes out what a harness asks for besides its credentials.
    pub fn apply_mounts(&self, def: &HarnessDef, overridden: bool, credentials: bool) -> (r: Result<
        MountPlan,
        String,
    >)
        ensures
            (match r {
                Ok(plan) => self.plan(def@, overridden, credentials) == Ok::<
                    MountPlanView,
                    Seq<char>,
                >(plan@),
                Err(message) => self.plan(def@, overridden, credentials) == Err::<
                    MountPlanView,
                    Seq<char>,
                >(message@),
            }),
    {
        let mut sink_args: Vec<String> = Vec::new();
        assert(texts(sink_args@) =~= Seq::empty());
        if overridden {
            match self.sink_path(def) {
                Some(path) => {
                    push_volume(
                        &mut sink_args,
                        path.as_str(),
                        def.allowlist.target.as_str(),
                        true,
                    );
                },
                None => {
                    return Err(
                        cat3(
                            "harness \"",
                            def.name.as_str(),
                            "\" does not declare an [allowlist] sink; remove harness.sandbox_config",
                        ),
                    );
                },
            }
        }
        let ghost all = mounts(def.mounts@);
        let mut plan = MountPlan { prepare: Vec::new(), args: Vec::new() };
        let mut i: usize = 0;
        proof {
            assert(all.take(0) =~= Seq::empty());
            assert(plan@.prepare =~= Seq::empty());
            assert(plan@.args =~= Seq::empty());
        }
        while i < def.mounts.len()
            invariant
                i <= def.mounts@.len(),
                all == mounts(def.mounts@),
                all == def@.mounts,
                overridden ==> def@.allowlist.takes_override(),
                self.effects(def@, all.take(i as int), overridden, credentials) == Ok::<
                    MountPlanView,
                    Seq<char>,
                >(plan@),
            decreases def.mounts@.len() - i,
        {
            proof {
                assert(all.take(i + 1).drop_last() =~= all.take(i as int));
                assert(all.take(i + 1).last() == def.mounts@[i as int]@);
            }
            match self.push_effect(&mut plan, def, &def.mounts[i], overridden, credentials) {
                Ok(_) => {},
                Err(message) => {
                    proof {
                        self.lemma_problem_stays(def@, all, i + 1, overridden, credentials);
                    }
                    return Err(message);
                },
            }
            i += 1;
        }
        assert(all.take(i as int) =~= all);
        let mut args = sink_args;
        push_all(&mut args, plan.args.as_slice());
        let whole = MountPlan { prepare: plan.prepare, args };
        Ok(whole)
    }
}

impl<'a> Site<'a> {
    /// Whether two sites find the same of a mount's places on the host.
    pub open spec fn agrees_on(self, other: Site<'_>, mount: MountDefView) -> bool {
        &&& mount.host.len() == 0 ==> (texts(self.present@).contains(Seq::<char>::empty())
            <==> texts(other.present@).contains(Seq::<char>::empty()))
        &&& self.candidates(mount.host_base, mount.host) matches Ok(list) ==> forall|i: int|
            0 <= i < list.len() ==> (texts(self.present@).contains(#[trigger] list[i]) <==> texts(
                other.present@,
            ).contains(list[i]))
    }
}

proof fn lemma_first_present_agrees(
    list: Seq<Seq<char>>,
    present: Seq<Seq<char>>,
    other: Seq<Seq<char>>,
)
    requires
        forall|i: int|
            0 <= i < list.len() ==> (present.contains(#[trigger] list[i]) <==> other.contains(
                list[i],
            )),
    ensures
        first_present(list, present) == first_present(list, other),
        first_present(list, present) is Some ==> list.contains(first_present(list, present)->Some_0),
    decreases list.len(),
{
    if list.len() > 0 {
        let rest = list.skip(1);
        assert(list[0] == list.first());
        assert forall|i: int| 0 <= i < rest.len() implies (present.contains(#[trigger] rest[i])
            <==> other.contains(rest[i])) by {
            assert(rest[i] == list[i + 1]);
        }
        lemma_first_present_agrees(rest, present, other);
        if first_present(rest, present) is Some {
            let k = choose|k: int|
                0 <= k < rest.len() && rest[k] == first_present(rest, present)->Some_0;
            assert(list[k + 1] == rest[k]);
        }
    }
}

/// What a harness asks for depends on the host only through its directories
/// and through which of the places of its mounts exist.
pub proof fn lemma_places_decide(
    site: Site<'_>,
    other: Site<'_>,
    def: HarnessDefView,
    overridden: bool,
    credentials: bool,
)
    requires
        site.dirs == other.dirs,
        site.runtime_base@ == other.runtime_base@,
        site.session_id@ == other.session_id@,
        forall|i: int| 0 <= i < def.mounts.len() ==> site.agrees_on(other, #[trigger] def.mounts[i]),
    ensures
        site.plan(def, overridden, credentials) == other.plan(def, overridden, credentials),
{
    lemma_effects_agree(site, other, def, def.mounts, overridden, credentials);
}

proof fn lemma_effects_agree(
    site: Site<'_>,
    other: Site<'_>,
    def: HarnessDefView,
    list: Seq<MountDefView>,
    overridden: bool,
    credentials: bool,
)
    requires
        site.dirs == other.dirs,
        site.runtime_base@ == other.runtime_base@,
        site.session_id@ == other.session_id@,
        forall|i: int| 0 <= i < list.len() ==> site.agrees_on(other, #[trigger] list[i]),
    ensures
        site.effects(def, list, overridden, credentials) == other.effects(
            def,
            list,
            overridden,
            credentials,
        ),
    decreases list.len(),
{
    if list.len() > 0 {
        let front = list.drop_last();
        assert forall|i: int| 0 <= i < front.len() implies site.agrees_on(
            other,
            #[trigger] front[i],
        ) by {
            assert(front[i] == list[i]);
        }
        lemma_effects_agree(site, other, def, front, overridden, credentials);
        let mount = list.last();
        assert(list[list.len() - 1] == mount);
        assert(site.agrees_on(other, mount));
        let found = site.candidates(mount.host_base, mount.host);
        assert(found == other.candidates(mount.host_base, mount.host));
        if found is Ok && mount.host.len() > 0 {
            let places = found->Ok_0;
            lemma_first_present_agrees(places, texts(site.present@), texts(other.present@));
            if places.len() > 0 {
                let best = best_of(places, texts(site.present@));
                assert(places.contains(places[0]));
                let k = choose|k: int| 0 <= k < places.len() && places[k] == best;
                assert(texts(site.present@).contains(places[k]) <==> texts(
                    other.present@,
                ).contains(places[k]));
            }
        }
        assert(site.effect(def, mount, overridden, credentials) == other.effect(
            def,
            mount,
            overridden,
            credentials,
        ));
    }
}

/// The mounts that hold no credentials.
pub open spec fn without_secrets(list: Seq<MountDefView>) -> Seq<MountDefView>
    decreases list.len(),
{
    if list.len() == 0 {
        Seq::empty()
    } else if list.last().mount_type == MountType::Credentials {
        without_secrets(list.drop_last())
    } else {
        without_secrets(list.drop_last()).push(list.last())
    }
}

/// Without the user's consent, a plan is what it would be if the definition
/// had no credentials at all.
pub proof fn lemma_credentials_need_consent(
    site: Site<'_>,
    def: HarnessDefView,
    overridden: bool,
    credentials: bool,
)
    requires
        site.plan(def, overridden, false) is Ok,
    ensures
        ({
            let bare = HarnessDefView { mounts: without_secrets(def.mounts), ..def };
            site.plan(def, overridden, false) == site.plan(bare, overridden, credentials)
        }),
{
    let bare = HarnessDefView { mounts: without_secrets(def.mounts), ..def };
    lemma_secrets_left_out(site, def, bare, def.mounts, overridden, credentials);
}

proof fn lemma_secrets_left_out(
    site: Site<'_>,
    def: HarnessDefView,
    bare: HarnessDefView,
    list: Seq<MountDefView>,
    overridden: bool,
    credentials: bool,
)
    requires
        site.effects(def, list, overridden, false) is Ok,
        def.name == bare.name,
        def.allowlist == bare.allowlist,
    ensures
        site.effects(def, list, overridden, false) == site.effects(
            bare,
            without_secrets(list),
            overridden,
            credentials,
        ),
    decreases list.len(),
{
    if list.len() > 0 {
        let front = list.drop_last();
        lemma_secrets_left_out(site, def, bare, front, overridden, credentials);
        let kept = without_secrets(front);
        let before = site.effects(def, front, overridden, false)->Ok_0;
        if list.last().mount_type == MountType::Credentials {
            let nothing = MountPlanView { prepare: Seq::empty(), args: Seq::empty() };
            assert(appended(before, nothing).prepare =~= before.prepare);
            assert(appended(before, nothing).args =~= before.args);
        } else {
            assert(kept.push(list.last()).drop_last() =~= kept);
        }
    }
}

} // verus!
