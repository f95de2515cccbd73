//! What a definition of a harness comes to on a host: where its files are looked
//! for, which of them a session sees, and how.

use super::engine::{
    lemma_append, lemma_nothing_reads, lemma_tmpfs_reads, lemma_volume_reads, no_reading,
    reading_of, reads_as, volume, Reading,
};
use crate::harness::credentials::{
    has_target, mounted_args, without_line_ends, Credentials, CredentialStepView,
};
use crate::harness::def::{
    bakes_run, toml_problem, CredentialDefView, HarnessDefView, HarnessToml, MountDefView,
};
use crate::harness::loader::{config_dirs, readable};
use crate::harness::mount::{best_of, bound, first_present, lies_below, Site};
use crate::harness::selection::{contents_problem, override_path};
use crate::harness::types::{
    base_of, rest_after, Access, AllowlistFormat, BadHostBase, HostBaseView, MountType, Platform,
};
use crate::paths::{components_of, path_join};
use crate::podman::{volume_args, Prepared};
use crate::text::{has_prefix, text_option, texts};
use vstd::prelude::*;
use vstd::string::*;

verus! {

proof fn lemma_prefixed(prefix: Seq<char>, rest: Seq<char>)
    ensures
        rest_after(prefix + rest, prefix) == Some(rest),
{
    let text = prefix + rest;
    assert(text.take(prefix.len() as int) =~= prefix);
    assert(text.skip(prefix.len() as int) =~= rest);
}

proof fn lemma_not_prefixed(text: Seq<char>, prefix: Seq<char>, i: int)
    requires
        0 <= i < prefix.len(),
        i < text.len() ==> text[i] != prefix[i],
    ensures
        rest_after(text, prefix) is None,
{
    if has_prefix(text, prefix) {
        assert(text.take(prefix.len() as int)[i] == text[i]);
    }
}

/// An override is found where it says: next to the configuration, from the
/// current directory, in the home directory, or at an absolute path.
pub proof fn lemma_override_is_where_it_says(
    rest: Seq<char>,
    config_dir: Seq<char>,
    home: Seq<char>,
)
    requires
        rest.len() > 0,
    ensures
        override_path("config:"@ + rest, config_dir, Some(home)) == Ok::<Seq<char>, Seq<char>>(
            path_join(config_dir, rest),
        ),
        override_path("cwd:"@ + rest, config_dir, Some(home)) == Ok::<Seq<char>, Seq<char>>(rest),
        override_path("~/"@ + rest, config_dir, Some(home)) == Ok::<Seq<char>, Seq<char>>(
            path_join(home, rest),
        ),
        override_path("~"@, config_dir, Some(home)) == Ok::<Seq<char>, Seq<char>>(home),
        override_path("/"@ + rest, config_dir, Some(home)) == Ok::<Seq<char>, Seq<char>>(
            "/"@ + rest,
        ),
        override_path("config:"@, config_dir, Some(home)) is Err,
        override_path("cwd:"@, config_dir, Some(home)) is Err,
        override_path("~/"@ + rest, config_dir, None) is Err,
        override_path("~"@, config_dir, None) is Err,
{
    reveal_strlit("config:");
    reveal_strlit("cwd:");
    reveal_strlit("~/");
    reveal_strlit("~");
    reveal_strlit("/");
    let none = Seq::<char>::empty();
    lemma_prefixed("config:"@, rest);
    lemma_prefixed("config:"@, none);
    assert("config:"@ + none =~= "config:"@);
    lemma_not_prefixed("cwd:"@ + rest, "config:"@, 1);
    lemma_not_prefixed("cwd:"@, "config:"@, 1);
    lemma_prefixed("cwd:"@, rest);
    lemma_prefixed("cwd:"@, none);
    assert("cwd:"@ + none =~= "cwd:"@);
    lemma_not_prefixed("~/"@ + rest, "config:"@, 0);
    lemma_not_prefixed("~/"@ + rest, "cwd:"@, 0);
    lemma_prefixed("~/"@, rest);
    lemma_not_prefixed("~"@, "config:"@, 0);
    lemma_not_prefixed("~"@, "cwd:"@, 0);
    lemma_not_prefixed("~"@, "~/"@, 1);
    let absolute = "/"@ + rest;
    lemma_not_prefixed(absolute, "config:"@, 0);
    lemma_not_prefixed(absolute, "cwd:"@, 0);
    lemma_not_prefixed(absolute, "~/"@, 0);
    assert(absolute[0] == '/' && "~"@[0] == '~');
    assert(absolute.take(1) =~= "/"@);
}

/// Any other way to write a place is refused: one that begins neither with a
/// prefix nor with a tilde nor with a slash.
pub proof fn lemma_vague_override_is_refused(
    raw: Seq<char>,
    config_dir: Seq<char>,
    home: Option<Seq<char>>,
)
    requires
        raw.len() > 0,
        raw[0] != 'c' && raw[0] != '~' && raw[0] != '/',
    ensures
        override_path(raw, config_dir, home) is Err,
{
    reveal_strlit("config:");
    reveal_strlit("cwd:");
    reveal_strlit("~/");
    reveal_strlit("~");
    reveal_strlit("/");
    lemma_not_prefixed(raw, "config:"@, 0);
    lemma_not_prefixed(raw, "cwd:"@, 0);
    lemma_not_prefixed(raw, "~/"@, 0);
    lemma_not_prefixed(raw, "/"@, 0);
    assert("~"@[0] == '~');
}

/// A place on the host is written as `home`, `runtime`, or with an application
/// behind `data:`, `state:` or `cache:`; nothing else is one.
pub proof fn lemma_bases_read_back(app: Seq<char>)
    ensures
        base_of("home"@) == Ok::<HostBaseView, BadHostBase>(HostBaseView::Home),
        base_of("runtime"@) == Ok::<HostBaseView, BadHostBase>(HostBaseView::Runtime),
        app.len() > 0 ==> base_of("data:"@ + app) == Ok::<HostBaseView, BadHostBase>(
            HostBaseView::Data(app),
        ),
        app.len() > 0 ==> base_of("state:"@ + app) == Ok::<HostBaseView, BadHostBase>(
            HostBaseView::State(app),
        ),
        app.len() > 0 ==> base_of("cache:"@ + app) == Ok::<HostBaseView, BadHostBase>(
            HostBaseView::Cache(app),
        ),
        app.len() == 0 ==> base_of("data:"@ + app) is Err && base_of("state:"@ + app) is Err
            && base_of("cache:"@ + app) is Err,
{
    reveal_strlit("home");
    reveal_strlit("runtime");
    reveal_strlit("data:");
    reveal_strlit("state:");
    reveal_strlit("cache:");
    assert("home"@[0] == 'h' && "runtime"@[0] == 'r');
    let d = "data:"@ + app;
    let s = "state:"@ + app;
    let c = "cache:"@ + app;
    assert(d[0] == 'd' && s[0] == 's' && c[0] == 'c');
    lemma_prefixed("data:"@, app);
    lemma_prefixed("state:"@, app);
    lemma_prefixed("cache:"@, app);
    lemma_not_prefixed(s, "data:"@, 0);
    lemma_not_prefixed(c, "data:"@, 0);
    lemma_not_prefixed(c, "state:"@, 0);
}

/// A file of the home directory is looked for there, and one of the session in
/// the session's own directory.
pub proof fn lemma_own_files_have_one_place(site: Site<'_>, host: Seq<char>)
    ensures
        site.candidates(HostBaseView::Runtime, host) == Ok::<Seq<Seq<char>>, Seq<char>>(
            seq![path_join(path_join(site.runtime_base@, site.session_id@), host)],
        ),
        (match site.dirs.home {
            Some(home) => site.candidates(HostBaseView::Home, host) == Ok::<
                Seq<Seq<char>>,
                Seq<char>,
            >(seq![path_join(home@, host)]),
            None => site.candidates(HostBaseView::Home, host) is Err,
        }),
{
}

/// Data of an application is looked for in the platform's own directory first,
/// then below the home directory.
pub proof fn lemma_data_is_looked_for_in_order(
    site: Site<'_>,
    app: Seq<char>,
    host: Seq<char>,
    home: Seq<char>,
)
    requires
        text_option(site.dirs.home) == Some(home),
    ensures
        ({
            let fallback = path_join(path_join(path_join(path_join(home, ".local"@), "share"@), app), host);
            match site.dirs.data {
                None => site.candidates(HostBaseView::Data(app), host) == Ok::<
                    Seq<Seq<char>>,
                    Seq<char>,
                >(seq![fallback]),
                Some(dir) => first_of(
                    site.candidates(HostBaseView::Data(app), host),
                    path_join(path_join(dir@, app), host),
                    fallback,
                ),
            }
        }),
{
}

/// State of an application is looked for in the platform's own directory first,
/// then below the home directory.
pub proof fn lemma_state_is_looked_for_in_order(
    site: Site<'_>,
    app: Seq<char>,
    host: Seq<char>,
    home: Seq<char>,
)
    requires
        text_option(site.dirs.home) == Some(home),
    ensures
        ({
            let fallback = path_join(path_join(path_join(path_join(home, ".local"@), "state"@), app), host);
            match site.dirs.state {
                None => site.candidates(HostBaseView::State(app), host) == Ok::<
                    Seq<Seq<char>>,
                    Seq<char>,
                >(seq![fallback]),
                Some(dir) => first_of(
                    site.candidates(HostBaseView::State(app), host),
                    path_join(path_join(dir@, app), host),
                    fallback,
                ),
            }
        }),
{
}

/// A cache of an application is looked for in the platform's own directory first,
/// then below the home directory.
pub proof fn lemma_cache_is_looked_for_in_order(
    site: Site<'_>,
    app: Seq<char>,
    host: Seq<char>,
    home: Seq<char>,
)
    requires
        text_option(site.dirs.home) == Some(home),
    ensures
        ({
            let fallback = path_join(path_join(path_join(home, ".cache"@), app), host);
            match site.dirs.cache {
                None => site.candidates(HostBaseView::Cache(app), host) == Ok::<
                    Seq<Seq<char>>,
                    Seq<char>,
                >(seq![fallback]),
                Some(dir) => first_of(
                    site.candidates(HostBaseView::Cache(app), host),
                    path_join(path_join(dir@, app), host),
                    fallback,
                ),
            }
        }),
{
}

/// The first place comes first; the other follows where it is another one.
pub open spec fn first_of(
    list: Result<Seq<Seq<char>>, Seq<char>>,
    first: Seq<char>,
    second: Seq<char>,
) -> bool {
    list == Ok::<Seq<Seq<char>>, Seq<char>>(
        if components_of(first) == components_of(second) {
            seq![first]
        } else {
            seq![first, second]
        },
    )
}

/// Of several places the first that exists is taken; the first of all where
/// none exists.
pub proof fn lemma_best_place(list: Seq<Seq<char>>, present: Seq<Seq<char>>, i: int)
    requires
        0 <= i < list.len(),
        forall|j: int| 0 <= j < i ==> !present.contains(#[trigger] list[j]),
    ensures
        present.contains(list[i]) ==> best_of(list, present) == list[i],
        i == list.len() - 1 && !present.contains(list[i]) ==> best_of(list, present) == list[0],
    decreases list.len(),
{
    lemma_first_present(list, present, i);
}

proof fn lemma_first_present(list: Seq<Seq<char>>, present: Seq<Seq<char>>, i: int)
    requires
        0 <= i < list.len(),
        forall|j: int| 0 <= j < i ==> !present.contains(#[trigger] list[j]),
    ensures
        present.contains(list[i]) ==> first_present(list, present) == Some(list[i]),
        i == list.len() - 1 && !present.contains(list[i]) ==> first_present(list, present)
            is None,
    decreases list.len(),
{
    if i > 0 {
        let rest = list.skip(1);
        assert(!present.contains(list[0]));
        assert forall|j: int| 0 <= j < i - 1 implies !present.contains(#[trigger] rest[j]) by {
            assert(rest[j] == list[j + 1]);
        }
        lemma_first_present(rest, present, i - 1);
    } else if list.len() == 1 {
        assert(list.skip(1) =~= Seq::empty());
        assert(first_present(list.skip(1), present) is None);
    }
}

/// One place lies below another where it goes on behind it with a slash.
pub proof fn lemma_below_goes_on(parent: Seq<char>, rest: Seq<char>)
    requires
        parent.len() > 0,
        parent.last() != '/',
    ensures
        lies_below(parent, parent + "/"@ + rest),
        lies_below(parent + "/"@, parent + "/"@ + rest),
        !lies_below(parent, parent),
        rest.len() > 0 && rest[0] != '/' ==> !lies_below(parent, parent + rest),
{
    reveal_strlit("/");
    reveal_with_fuel(crate::text::drop_trailing, 3);
    let child = parent + "/"@ + rest;
    let slash = crate::text::CharSet::One('/');
    assert(crate::text::drop_trailing(parent, slash) == parent);
    assert((parent + "/"@).drop_last() =~= parent);
    assert(crate::text::drop_trailing(parent + "/"@, slash) == parent);
    assert(child.take(parent.len() as int) =~= parent);
    assert((parent + rest).take(parent.len() as int) =~= parent);
}

/// How one file or directory of a definition is seen, as it was declared.
pub open spec fn seen_as(mount: MountDefView, host: Seq<char>) -> Reading {
    match mount.access {
        Access::Ro => Reading {
            volumes: seq![volume(host, mount.target, ":ro"@)],
            ..no_reading()
        },
        Access::Pinned | Access::PinnedDir => Reading {
            volumes: seq![volume(host, mount.target, ":rw"@)],
            ..no_reading()
        },
        Access::Tmpfs => Reading {
            tmpfs: seq![mount.target + ":rw,mode=1777"@],
            ..no_reading()
        },
    }
}

/// What has to be there first for it.
pub open spec fn made_for(mount: MountDefView, host: Seq<char>) -> Seq<Prepared> {
    match mount.access {
        Access::Pinned => seq![Prepared::File(host)],
        Access::PinnedDir => seq![Prepared::Directory(host)],
        _ => Seq::empty(),
    }
}

proof fn lemma_bound_reads(mount: MountDefView, host: Seq<char>)
    ensures
        reads_as(bound(mount, host).args, seen_as(mount, host)),
        bound(mount, host).prepare == made_for(mount, host),
{
    lemma_volume_reads(host, mount.target, true);
    lemma_volume_reads(host, mount.target, false);
    lemma_tmpfs_reads(mount.target);
}

/// A mount of a definition is left out only for a reason: a credential without
/// consent or, read-only, without the file; configuration that the host lacks or
/// that the session's override stands in for. Any other is mounted as declared.
pub proof fn lemma_declared_mounts_are_seen(
    site: Site<'_>,
    def: HarnessDefView,
    mount: MountDefView,
    overridden: bool,
    credentials: bool,
    host: Seq<char>,
)
    requires
        mount.mount_type != MountType::Ephemeral,
        mount.mount_type != MountType::Generated,
        site.host_path(mount) == Ok::<Seq<char>, Seq<char>>(host),
    ensures
        ({
            let there = texts(site.present@).contains(host);
            let left_out = match mount.mount_type {
                MountType::Credentials => !credentials || (mount.access == Access::Ro && !there),
                MountType::Config => !there || (overridden && lies_below(
                    mount.target,
                    def.allowlist.target,
                )),
                _ => false,
            };
            let plan = site.effect(def, mount, overridden, credentials)->Ok_0;
            &&& site.effect(def, mount, overridden, credentials) is Ok
            &&& reading_of(plan.args) == Some(
                if left_out {
                    no_reading()
                } else {
                    seen_as(mount, host)
                },
            )
            &&& plan.prepare == (if left_out {
                Seq::empty()
            } else {
                made_for(mount, host)
            })
        }),
{
    lemma_bound_reads(mount, host);
    lemma_nothing_reads();
    reveal(reads_as);
}

/// What is written to no place is in memory; and a generated file needs the
/// place that the definition names for its override.
pub proof fn lemma_special_mounts(
    site: Site<'_>,
    def: HarnessDefView,
    mount: MountDefView,
    overridden: bool,
    credentials: bool,
)
    ensures
        mount.mount_type == MountType::Ephemeral ==> {
            let plan = site.effect(def, mount, overridden, credentials);
            &&& plan is Ok <==> mount.access == Access::Tmpfs
            &&& plan is Ok ==> plan->Ok_0.prepare.len() == 0 && reading_of(plan->Ok_0.args)
                == Some(Reading { tmpfs: seq![mount.target + ":rw,mode=1777"@], ..no_reading() })
        },
        mount.mount_type == MountType::Generated ==> {
            let plan = site.effect(def, mount, overridden, credentials);
            &&& plan is Ok <==> def.allowlist.target.len() > 0 && mount.target
                == def.allowlist.target
            &&& plan is Ok ==> plan->Ok_0.args.len() == 0 && plan->Ok_0.prepare.len() == 0
        },
{
    lemma_tmpfs_reads(mount.target);
    reveal(reads_as);
}

/// What the mounts of a definition ask for, they ask for one behind the other.
pub proof fn lemma_mounts_are_planned_in_turn(
    site: Site<'_>,
    def: HarnessDefView,
    list: Seq<MountDefView>,
    overridden: bool,
    credentials: bool,
    one: Reading,
    two: Reading,
)
    requires
        list.len() > 0,
        site.effects(def, list, overridden, credentials) is Ok,
        reading_of(
            site.effects(def, list.drop_last(), overridden, credentials)->Ok_0.args,
        ) == Some(one),
        reading_of(site.effect(def, list.last(), overridden, credentials)->Ok_0.args) == Some(
            two,
        ),
    ensures
        reading_of(site.effects(def, list, overridden, credentials)->Ok_0.args) == Some(
            super::engine::both(one, two),
        ),
{
    let first = site.effects(def, list.drop_last(), overridden, credentials)->Ok_0;
    let second = site.effect(def, list.last(), overridden, credentials)->Ok_0;
    assert(reads_as(first.args, one)) by {
        reveal(reads_as);
    }
    assert(reads_as(second.args, two)) by {
        reveal(reads_as);
    }
    super::engine::lemma_reads_add(first.args, one, second.args, two);
    reveal(reads_as);
}

/// An override is refused where the definition names no place for it, and is
/// otherwise mounted read-only at that place, before anything else.
pub proof fn lemma_override_is_mounted(
    site: Site<'_>,
    def: HarnessDefView,
    overridden: bool,
    credentials: bool,
)
    ensures
        overridden && def.allowlist.target.len() == 0 ==> site.plan(def, overridden, credentials)
            is Err,
        site.plan(def, overridden, credentials) is Ok ==> {
            let own = site.plan(def, overridden, credentials)->Ok_0;
            let rest = site.effects(def, def.mounts, overridden, credentials)->Ok_0;
            &&& own.prepare == rest.prepare
            &&& !overridden ==> own.args == rest.args
            &&& overridden ==> own.args == volume_args(
                site.sink(def.allowlist.target),
                def.allowlist.target,
                true,
            ) + rest.args
        },
{
    if !overridden && site.plan(def, overridden, credentials) is Ok {
        let rest = site.effects(def, def.mounts, overridden, credentials)->Ok_0;
        assert(Seq::<Seq<char>>::empty() + rest.args =~= rest.args);
    }
}

/// The volumes of the mounted credentials.
pub open spec fn secret_volumes(mounted: Seq<(String, String)>) -> Seq<Seq<char>> {
    Seq::new(mounted.len(), |i: int| volume(mounted[i].0@, mounted[i].1@, ":ro"@))
}

/// Every credential is mounted read-only at its place, and nothing else is.
pub proof fn lemma_credentials_are_read_only(mounted: Seq<(String, String)>)
    ensures
        reading_of(mounted_args(mounted)) == Some(
            Reading { volumes: secret_volumes(mounted), ..no_reading() },
        ),
{
    lemma_secrets_read(mounted);
    reveal(reads_as);
}

proof fn lemma_secrets_read(mounted: Seq<(String, String)>)
    ensures
        reads_as(
            mounted_args(mounted),
            Reading { volumes: secret_volumes(mounted), ..no_reading() },
        ),
    decreases mounted.len(),
{
    if mounted.len() == 0 {
        lemma_nothing_reads();
        assert(secret_volumes(mounted) =~= Seq::empty());
    } else {
        let front = mounted.drop_last();
        let last = mounted.last();
        lemma_secrets_read(front);
        lemma_volume_reads(last.0@, last.1@, true);
        lemma_append(
            mounted_args(front),
            Reading { volumes: secret_volumes(front), ..no_reading() },
            volume_args(last.0@, last.1@, true),
            Reading { volumes: seq![volume(last.0@, last.1@, ":ro"@)], ..no_reading() },
            Reading { volumes: secret_volumes(mounted), ..no_reading() },
        );
    }
}

/// A credential is passed over on other platforms and where its place is taken;
/// on its own it is taken from the keychain or from a file, as its source says.
pub proof fn lemma_credential_comes_from_its_source(
    credentials: Credentials,
    credential: CredentialDefView,
    platform: Platform,
    site: Site<'_>,
    rest: Seq<char>,
)
    requires
        credential.target.len() > 0 && credential.target[0] == '/',
    ensures
        credential.platforms is Some && !credential.platforms->Some_0.contains(platform)
            ==> credentials.step_for(credential, platform, site) == Ok::<
            CredentialStepView,
            Seq<char>,
        >(CredentialStepView::Skip),
        has_target(credentials.mounted@, credential.target) ==> credentials.step_for(
            credential,
            platform,
            site,
        ) == Ok::<CredentialStepView, Seq<char>>(CredentialStepView::Skip),
        (credential.platforms is None || credential.platforms->Some_0.contains(platform))
            && !has_target(credentials.mounted@, credential.target) ==> {
            let step = credentials.step_for(credential, platform, site);
            &&& credential.source == "keychain:"@ + rest && step is Ok ==> step->Ok_0 is Keychain
            &&& credential.source == "file:"@ + rest && step is Ok ==> step->Ok_0 is File
            &&& step is Ok ==> !(step->Ok_0 is Skip)
        },
{
    reveal_strlit("/");
    reveal_strlit("keychain:");
    reveal_strlit("file:");
    assert(credential.target.take(1) =~= "/"@);
    lemma_prefixed("keychain:"@, rest);
    lemma_prefixed("file:"@, rest);
    lemma_not_prefixed("file:"@ + rest, "keychain:"@, 0);
}

/// Of what a keychain prints only ends of lines are lost, and all of those that
/// stand at the end.
pub proof fn lemma_only_line_ends_go(data: Seq<u8>)
    ensures
        ({
            let kept = without_line_ends(data);
            &&& kept.is_prefix_of(data)
            &&& kept.len() > 0 ==> kept.last() != 10 && kept.last() != 13
            &&& forall|i: int|
                kept.len() <= i < data.len() ==> (#[trigger] data[i] == 10 || data[i] == 13)
        }),
    decreases data.len(),
{
    if data.len() > 0 && (data.last() == 10 || data.last() == 13) {
        lemma_only_line_ends_go(data.drop_last());
        let kept = without_line_ends(data);
        assert forall|i: int| kept.len() <= i < data.len() implies (#[trigger] data[i] == 10
            || data[i] == 13) by {
            if i < data.len() - 1 {
                assert(data.drop_last()[i] == data[i]);
            }
        }
    }
}

/// The platform's directory for configuration comes before the one in the home
/// directory, which is listed only where it is another one.
pub proof fn lemma_config_dirs_in_order(config: Seq<char>, home: Seq<char>)
    ensures
        config_dirs(Some(config), None) == seq![config],
        config_dirs(None, Some(home)) == seq![path_join(home, ".config"@)],
        config_dirs(None, None) == Seq::<Seq<char>>::empty(),
        config_dirs(Some(config), Some(home)) == (if components_of(config) == components_of(
            path_join(home, ".config"@),
        ) {
            seq![config]
        } else {
            seq![config, path_join(home, ".config"@)]
        }),
{
}

/// The definitions that could be read are all used, in their order.
pub proof fn lemma_readable_definitions_count(
    list: Seq<Result<crate::harness::def::HarnessDef, String>>,
)
    ensures
        readable(list) == list.filter(
            |item: Result<crate::harness::def::HarnessDef, String>| item is Ok,
        ).map_values(|item: Result<crate::harness::def::HarnessDef, String>| item->Ok_0),
    decreases list.len(),
{
    reveal(Seq::filter);
    let good = |item: Result<crate::harness::def::HarnessDef, String>| item is Ok;
    let inner = |item: Result<crate::harness::def::HarnessDef, String>| item->Ok_0;
    if list.len() == 0 {
        assert(list.filter(good).map_values(inner) =~= Seq::empty());
    } else {
        let front = list.drop_last();
        lemma_readable_definitions_count(front);
        assert(front.filter(good).push(list.last()).map_values(inner) =~= front.filter(
            good,
        ).map_values(inner).push(inner(list.last())));
    }
}

/// A definition is used exactly where it is of the known version, has a name,
/// and installs with a plain command.
pub proof fn lemma_definition_is_used(toml: HarnessToml)
    ensures
        toml_problem(toml) is None <==> toml.schema_version == 1 && toml.name@.len() > 0
            && !bakes_run(toml.install@),
{
}

/// The contents of an override are taken as its format has it: any bytes where
/// it has none.
pub proof fn lemma_contents_are_of_their_format(
    path: Seq<char>,
    bytes: Seq<u8>,
    json: Option<Seq<char>>,
    toml: Option<Seq<char>>,
)
    ensures
        contents_problem(path, AllowlistFormat::Raw, bytes, json, toml) is None,
        contents_problem(path, AllowlistFormat::Json, bytes, json, toml) is None <==> json is None,
        contents_problem(path, AllowlistFormat::Toml, bytes, json, toml) is None
            <==> vstd::utf8::valid_utf8(bytes) && toml is None,
{
}

} // verus!
