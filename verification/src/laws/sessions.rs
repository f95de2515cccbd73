//! Where sessions start, whom their commands run as, and what is made of names,
//! addresses and registrations on the way.

use super::texts::{lemma_leading_is_dropped, lemma_written_number_is_read};
use crate::attach::target_args;
use crate::config::Networking;
use crate::harness::credentials::without_dots;
use crate::harness::def::{definitions, HarnessDef, HarnessDefView};
use crate::harness::loader::{first_with_harnesses, harnesses_in, joined_definitions};
use crate::harness::mount::flat_name;
use crate::harness::selection::{override_problem, repository_marks};
use crate::json::{tree_member, JsonTree};
use crate::networking::enforcement::{classified_failure, Verdict};
use crate::networking::hook::hook_in;
use crate::networking::{v4_of, v6_of, Address};
use crate::paths::path_join;
use crate::platform::{id_of, lossy_text, unsigned_value};
use crate::registry::SessionRecord;
use crate::run::{start_problem, user_of};
use crate::sandbox::{one_entry, CopiedEntry};
use crate::text::{contains_part, decimal_text, has_prefix, replaced_char, texts, trimmed, CharSet};
use vstd::prelude::*;
use vstd::string::*;

verus! {

/// A session is started exactly in a repository and by a user who is not root.
pub proof fn lemma_start_is_allowed(is_repository: bool, uid: u32)
    ensures
        start_problem(is_repository, uid) is None <==> is_repository && uid > 0,
        start_problem(is_repository, uid) == start_problem(is_repository, 0) ==> !is_repository
            || uid == 0,
{
}

/// The identity of a session's commands is read back as the user and the group,
/// on either side of a colon. The result is where the colon stands.
pub proof fn lemma_user_is_read_back(uid: u32, gid: u32) -> (k: int)
    ensures
        0 <= k < user_of(uid, gid).len(),
        user_of(uid, gid)[k] == ':',
        unsigned_value(user_of(uid, gid).take(k), u32::MAX as int) == Some(uid as int),
        unsigned_value(user_of(uid, gid).skip(k + 1), u32::MAX as int) == Some(gid as int),
{
    reveal_strlit(":");
    let user = decimal_text(uid as nat);
    let group = decimal_text(gid as nat);
    let k = user.len() as int;
    lemma_written_number_is_read(uid as nat, u32::MAX as int);
    lemma_written_number_is_read(gid as nat, u32::MAX as int);
    assert(user_of(uid, gid).take(k) =~= user);
    assert(user_of(uid, gid).skip(k + 1) =~= group);
    k
}

/// An option is given a value: it stands directly before it.
pub open spec fn gives(args: Seq<Seq<char>>, option: Seq<char>, value: Seq<char>) -> bool {
    exists|i: int| 0 <= i < args.len() - 1 && #[trigger] args[i] == option && args[i + 1] == value
}

/// A command in a session runs in its workspace, as its user, and in its
/// container: the container stands behind all options.
pub proof fn lemma_target_is_the_session(session: SessionRecord)
    ensures
        gives(target_args(session).drop_last(), "--workdir"@, session.workspace@),
        gives(target_args(session).drop_last(), "--user"@, session.user@),
        target_args(session).len() == 5,
        target_args(session).last() == session.container_name@,
{
    let options = target_args(session).drop_last();
    assert(options[0] == "--workdir"@ && options[1] == session.workspace@);
    assert(options[2] == "--user"@ && options[3] == session.user@);
}

/// One character of a path as it stands in the name of a file.
pub open spec fn flattened(c: char) -> char {
    if c == '/' || c == '\\' {
        '_'
    } else {
        c
    }
}

proof fn lemma_replaced_alike(text: Seq<char>, old_char: char)
    ensures
        replaced_char(text, old_char, seq!['_']) == text.map_values(
            |c: char|
                if c == old_char {
                    '_'
                } else {
                    c
                },
        ),
    decreases text.len(),
{
    let f = |c: char|
        if c == old_char {
            '_'
        } else {
            c
        };
    if text.len() > 0 {
        lemma_replaced_alike(text.drop_last(), old_char);
        assert(text.map_values(f) =~= text.drop_last().map_values(f).push(f(text.last())));
        assert(replaced_char(text, old_char, seq!['_']) =~= text.map_values(f));
    } else {
        assert(text.map_values(f) =~= text);
    }
}

/// The name that a path in the container has as a file: every separator is an
/// underscore, other characters stay, and the underscores before the first
/// other character go. The result is how many go.
pub proof fn lemma_flat_name_is_by_character(target: Seq<char>) -> (n: int)
    ensures
        0 <= n <= target.len(),
        flat_name(target).len() == target.len() - n,
        forall|i: int|
            n <= i < target.len() ==> #[trigger] flat_name(target)[i - n] == flattened(target[i]),
        forall|i: int| 0 <= i < n ==> flattened(#[trigger] target[i]) == '_',
        n < target.len() ==> flat_name(target)[0] != '_',
        forall|i: int|
            0 <= i < flat_name(target).len() ==> #[trigger] flat_name(target)[i] != '/'
                && flat_name(target)[i] != '\\',
{
    reveal_strlit("_");
    assert("_"@ =~= seq!['_']);
    let first = replaced_char(target, '/', "_"@);
    let second = replaced_char(first, '\\', "_"@);
    lemma_replaced_alike(target, '/');
    lemma_replaced_alike(first, '\\');
    assert(second.len() == target.len());
    assert(forall|i: int|
        0 <= i < target.len() ==> #[trigger] second[i] == flattened(target[i]));
    let n = lemma_leading_is_dropped(second, CharSet::One('_'));
    assert forall|i: int| 0 <= i < n implies flattened(#[trigger] target[i]) == '_' by {
        assert(second.take(n)[i] == second[i]);
    }
    assert(flat_name(target) == second.skip(n));
    assert forall|i: int| 0 <= i < flat_name(target).len() implies #[trigger] flat_name(target)[i]
        != '/' && flat_name(target)[i] != '\\' by {
        assert(second[n + i] == flattened(target[n + i]));
    }
    n
}

/// `./` so many times.
pub open spec fn dots(n: nat) -> Seq<char>
    decreases n,
{
    if n == 0 {
        Seq::empty()
    } else {
        seq!['.', '/'] + dots((n - 1) as nat)
    }
}

/// What is taken from a path is `./` before it, as often as it stands there,
/// and nothing else. The result is how often.
pub proof fn lemma_only_dots_go(path: Seq<char>) -> (n: nat)
    ensures
        path == dots(n) + without_dots(path),
        without_dots(path).len() >= 2 ==> !(without_dots(path)[0] == '.' && without_dots(path)[1]
            == '/'),
    decreases path.len(),
{
    if has_prefix(path, seq!['.', '/']) {
        let n = lemma_only_dots_go(path.skip(2));
        assert(path.take(2) =~= seq!['.', '/']);
        assert(path =~= seq!['.', '/'] + path.skip(2));
        assert(path =~= dots(n + 1) + without_dots(path));
        n + 1
    } else {
        assert(path =~= dots(0) + path);
        if path.len() >= 2 && path[0] == '.' && path[1] == '/' {
            assert(path.take(2) =~= seq!['.', '/']);
        }
        0
    }
}

/// A failed query never says that the rules are in force; it says that they are
/// broken exactly where the table is reported not to be there.
pub proof fn lemma_failure_is_judged(message: Seq<char>, verdict: Verdict)
    requires
        classified_failure(message, verdict),
    ensures
        verdict !is Compliant,
        verdict is Violated <==> contains_part(message, "no such"@),
        verdict is Inconclusive <==> !contains_part(message, "no such"@),
{
}

/// A registration whose annotations ask for pithos's networking names the hook
/// that runs.
pub proof fn lemma_registration_is_found(
    tree: JsonTree,
    when: JsonTree,
    annotations: JsonTree,
    hook: JsonTree,
    path: Seq<char>,
)
    requires
        tree_member(tree, "when"@) == Some(when),
        tree_member(when, "annotations"@) == Some(annotations),
        tree_member(annotations, "pithos.networking"@) == Some(JsonTree::Text("1"@)),
        tree_member(tree, "hook"@) == Some(hook),
        tree_member(hook, "path"@) == Some(JsonTree::Text(path)),
    ensures
        hook_in(tree) == Some(path),
{
}

/// A hook is found only where the registration asks for pithos's networking and
/// names its path. The result is the condition, its annotations and the hook.
pub proof fn lemma_found_is_registered(tree: JsonTree) -> (r: (JsonTree, JsonTree, JsonTree))
    requires
        hook_in(tree) is Some,
    ensures
        tree_member(tree, "when"@) == Some(r.0),
        tree_member(r.0, "annotations"@) == Some(r.1),
        tree_member(r.1, "pithos.networking"@) == Some(JsonTree::Text("1"@)),
        tree_member(tree, "hook"@) == Some(r.2),
        tree_member(r.2, "path"@) == Some(JsonTree::Text(hook_in(tree)->Some_0)),
{
    let when = tree_member(tree, "when"@)->Some_0;
    (when, tree_member(when, "annotations"@)->Some_0, tree_member(tree, "hook"@)->Some_0)
}

/// A place shows a repository exactly where it is `.git` in one of the
/// directories.
pub proof fn lemma_marks_are_in_directories(dirs: Seq<Seq<char>>, place: Seq<char>)
    ensures
        repository_marks(dirs).contains(place) <==> exists|i: int|
            0 <= i < dirs.len() && place == path_join(#[trigger] dirs[i], ".git"@),
{
    let marks = repository_marks(dirs);
    if marks.contains(place) {
        let i = choose|i: int| 0 <= i < marks.len() && marks[i] == place;
        assert(place == path_join(dirs[i], ".git"@));
    }
    if exists|i: int| 0 <= i < dirs.len() && place == path_join(#[trigger] dirs[i], ".git"@) {
        let i = choose|i: int| 0 <= i < dirs.len() && place == path_join(#[trigger] dirs[i], ".git"@);
        assert(marks[i] == place);
    }
}

/// Addresses are parted by their kind and keep their order: those of two lists
/// are those of the one and then those of the other, and one address goes to
/// its own kind alone.
pub proof fn lemma_addresses_are_parted(first: Seq<Address>, second: Seq<Address>)
    ensures
        v4_of(first + second) == v4_of(first) + v4_of(second),
        v6_of(first + second) == v6_of(first) + v6_of(second),
        v4_of(first).len() + v6_of(first).len() == first.len(),
        forall|ip: u32| #[trigger] v4_of(seq![Address::V4(ip)]) == seq![ip],
        forall|ip: u32| #[trigger] v6_of(seq![Address::V4(ip)]) == Seq::<u128>::empty(),
        forall|ip: u128| #[trigger] v6_of(seq![Address::V6(ip)]) == seq![ip],
        forall|ip: u128| #[trigger] v4_of(seq![Address::V6(ip)]) == Seq::<u32>::empty(),
    decreases first.len() + second.len(),
{
    reveal_with_fuel(v4_of, 2);
    reveal_with_fuel(v6_of, 2);
    assert forall|ip: u32| #[trigger] v4_of(seq![Address::V4(ip)]) == seq![ip] by {
        assert(seq![Address::V4(ip)].drop_last() =~= Seq::empty());
        assert(v4_of(seq![Address::V4(ip)]) =~= seq![ip]);
    }
    assert forall|ip: u32| #[trigger] v6_of(seq![Address::V4(ip)]) == Seq::<u128>::empty() by {
        assert(seq![Address::V4(ip)].drop_last() =~= Seq::empty());
    }
    assert forall|ip: u128| #[trigger] v6_of(seq![Address::V6(ip)]) == seq![ip] by {
        assert(seq![Address::V6(ip)].drop_last() =~= Seq::empty());
        assert(v6_of(seq![Address::V6(ip)]) =~= seq![ip]);
    }
    assert forall|ip: u128| #[trigger] v4_of(seq![Address::V6(ip)]) == Seq::<u32>::empty() by {
        assert(seq![Address::V6(ip)].drop_last() =~= Seq::empty());
    }
    let all = first + second;
    if second.len() == 0 {
        assert(all =~= first);
        assert(v4_of(first) + v4_of(second) =~= v4_of(first));
        assert(v6_of(first) + v6_of(second) =~= v6_of(first));
        if first.len() > 0 {
            lemma_addresses_are_parted(first.drop_last(), second);
        }
    } else {
        lemma_addresses_are_parted(first, second.drop_last());
        assert(all.drop_last() =~= first + second.drop_last());
        assert(v4_of(all) =~= v4_of(first) + v4_of(second));
        assert(v6_of(all) =~= v6_of(first) + v6_of(second));
    }
}

/// The definitions of several directories stand one after another, each
/// directory's own in its place.
pub proof fn lemma_directories_are_joined(first: Seq<Vec<HarnessDef>>, second: Seq<Vec<HarnessDef>>)
    ensures
        joined_definitions(first + second) == joined_definitions(first) + joined_definitions(
            second,
        ),
        forall|one: Vec<HarnessDef>|
            joined_definitions(#[trigger] seq![one]) == definitions(one@),
    decreases second.len(),
{
    reveal_with_fuel(joined_definitions, 2);
    assert forall|one: Vec<HarnessDef>| joined_definitions(#[trigger] seq![one]) == definitions(
        one@,
    ) by {
        assert(seq![one].drop_last() =~= Seq::empty());
        assert(Seq::<HarnessDefView>::empty() + definitions(one@) =~= definitions(one@));
    }
    let all = first + second;
    if second.len() == 0 {
        assert(all =~= first);
        assert(joined_definitions(first) + joined_definitions(second) =~= joined_definitions(
            first,
        ));
    } else {
        let front = second.drop_last();
        lemma_directories_are_joined(first, front);
        assert(all.drop_last() =~= first + front);
        assert(joined_definitions(all) =~= joined_definitions(first) + joined_definitions(second));
    }
}

/// A host is free of the limits exactly where the configuration names it, or
/// where the usual ones are wanted and it is one of them.
pub proof fn lemma_free_hosts_are_named(
    networking: &Networking,
    defaults: Seq<Seq<char>>,
    host: Seq<char>,
)
    ensures
        networking.free_hosts(defaults).contains(host) <==> texts(
            networking.whitelist@,
        ).contains(host) || (networking.use_default_whitelist && defaults.contains(host)),
{
    let own = texts(networking.whitelist@);
    let before: Seq<Seq<char>> = if networking.use_default_whitelist {
        defaults
    } else {
        Seq::empty()
    };
    let all = networking.free_hosts(defaults);
    assert(all == before + own);
    if own.contains(host) {
        let i = choose|i: int| 0 <= i < own.len() && own[i] == host;
        assert(all[before.len() + i] == host);
    }
    if before.contains(host) {
        let i = choose|i: int| 0 <= i < before.len() && before[i] == host;
        assert(all[i] == host);
    }
    if all.contains(host) {
        let i = choose|i: int| 0 <= i < all.len() && all[i] == host;
        if i < before.len() {
            assert(before[i] == host);
        } else {
            assert(own[i - before.len()] == host);
        }
    }
}

/// One copied entry counts once: as a file or as a link. Its bytes count where
/// it is a file, and it is cloned only where it is one.
pub proof fn lemma_one_entry_counts_once(entry: CopiedEntry)
    ensures
        one_entry(entry).files + one_entry(entry).symlinks == 1,
        one_entry(entry).directories == 0,
        one_entry(entry).files == 1 <==> entry is File,
        one_entry(entry).cloned <= one_entry(entry).files,
        entry matches CopiedEntry::File { bytes, reflinked } ==> one_entry(entry).bytes == bytes
            && (one_entry(entry).cloned == 1 <==> reflinked),
        entry is Symlink ==> one_entry(entry).bytes == 0,
{
}

/// An override is taken only by a harness that has a place for it, and only
/// where it could be read.
pub proof fn lemma_override_needs_a_place(
    def: HarnessDefView,
    path: Seq<char>,
    contents: Result<Seq<u8>, Seq<char>>,
)
    ensures
        override_problem(def, path, contents) is None ==> def.allowlist.target.len() > 0
            && contents is Ok,
{
}

/// The id that a program printed is read back, whatever white space stands
/// round it; without a number, it is that of a podman machine's user.
pub proof fn lemma_id_is_read_back(bytes: Seq<u8>, id: u32)
    ensures
        trimmed(lossy_text(bytes), CharSet::WhiteSpace) == decimal_text(id as nat) ==> id_of(
            Some(bytes),
        ) == id,
        unsigned_value(trimmed(lossy_text(bytes), CharSet::WhiteSpace), u32::MAX as int) is None
            ==> id_of(Some(bytes)) == 1000,
        id_of(None) == 1000,
{
    lemma_written_number_is_read(id as nat, u32::MAX as int);
}

/// The directory that is taken for definitions is the first that has any, and
/// none is taken only where none has.
pub proof fn lemma_first_directory_is_taken(dirs: Seq<Seq<char>>, present: Seq<Seq<char>>)
    ensures
        match first_with_harnesses(dirs, present) {
            Some(dir) => exists|i: int|
                0 <= i < dirs.len() && #[trigger] dirs[i] == dir && present.contains(
                    path_join(path_join(dir, "pithos"@), "harnesses"@),
                ) && forall|j: int|
                    0 <= j < i ==> !present.contains(
                        path_join(path_join(#[trigger] dirs[j], "pithos"@), "harnesses"@),
                    ),
            None => forall|j: int|
                0 <= j < dirs.len() ==> !present.contains(
                    path_join(path_join(#[trigger] dirs[j], "pithos"@), "harnesses"@),
                ),
        },
    decreases dirs.len(),
{
    if dirs.len() > 0 {
        let rest = dirs.skip(1);
        lemma_first_directory_is_taken(rest, present);
        if present.contains(harnesses_in(dirs[0])) {
            assert(dirs[0] == first_with_harnesses(dirs, present)->Some_0);
        } else {
            assert(forall|j: int| 1 <= j < dirs.len() ==> #[trigger] dirs[j] == rest[j - 1]);
            if let Some(dir) = first_with_harnesses(rest, present) {
                let i = choose|i: int|
                    0 <= i < rest.len() && #[trigger] rest[i] == dir && present.contains(
                        path_join(path_join(dir, "pithos"@), "harnesses"@),
                    ) && forall|j: int|
                        0 <= j < i ==> !present.contains(
                            path_join(path_join(#[trigger] rest[j], "pithos"@), "harnesses"@),
                        );
                assert(dirs[i + 1] == dir);
            }
        }
    }
}

} // verus!
