//! Which toolchains and harnesses a configuration comes to, and under which
//! names sessions and their files are known.

use crate::config::Config;
use crate::paths::{above, path_of};
use crate::registry::{dashed, sanitized, session_id};
use crate::sandbox::{same_look, LookView};
use crate::text::{trimmed, CharSet};
use crate::toolchain::{
    entry_named, expand_all, expand_one, expansion, lemma_entering_shrinks, unvisited,
    IncludeGraph, ToolchainDef,
};
use vstd::prelude::*;
use vstd::string::*;

verus! {

proof fn lemma_one_extends(
    graph: IncludeGraph,
    name: Seq<char>,
    out: Seq<Seq<char>>,
    path: Seq<Seq<char>>,
)
    requires
        graph.dom().finite(),
        expand_one(graph, name, out, path) is Ok,
    ensures
        out.is_prefix_of(expand_one(graph, name, out, path)->Ok_0),
        out.contains(name) ==> expand_one(graph, name, out, path)->Ok_0 == out,
        !out.contains(name) ==> out.push(name).is_prefix_of(
            expand_one(graph, name, out, path)->Ok_0,
        ),
    decreases unvisited(graph, path).len(), 0int,
{
    if !out.contains(name) {
        lemma_entering_shrinks(graph, path, name);
        lemma_all_extends(graph, graph[name], out.push(name), path.push(name));
        let all = expand_one(graph, name, out, path)->Ok_0;
        assert(out.push(name).is_prefix_of(all));
        assert(out.is_prefix_of(out.push(name)));
        assert(out =~= all.take(out.len() as int)) by {
            assert(out.push(name) == all.take((out.len() + 1) as int));
            assert forall|i: int| 0 <= i < out.len() implies out[i] == all[i] by {
                assert(out.push(name)[i] == all.take((out.len() + 1) as int)[i]);
            }
        }
    }
}

proof fn lemma_all_extends(
    graph: IncludeGraph,
    names: Seq<Seq<char>>,
    out: Seq<Seq<char>>,
    path: Seq<Seq<char>>,
)
    requires
        graph.dom().finite(),
        expand_all(graph, names, out, path) is Ok,
    ensures
        out.is_prefix_of(expand_all(graph, names, out, path)->Ok_0),
    decreases unvisited(graph, path).len(), names.len() + 1,
{
    if names.len() > 0 {
        let front = names.drop_last();
        lemma_all_extends(graph, front, out, path);
        let listed = expand_all(graph, front, out, path)->Ok_0;
        lemma_one_extends(graph, names.last(), listed, path);
        let all = expand_all(graph, names, out, path)->Ok_0;
        assert(out =~= all.take(out.len() as int)) by {
            assert(listed == all.take(listed.len() as int));
            assert(out == listed.take(out.len() as int));
            assert forall|i: int| 0 <= i < out.len() implies out[i] == all[i] by {
                assert(out[i] == listed[i]);
                assert(listed[i] == all.take(listed.len() as int)[i]);
            }
        }
    }
}

/// A toolchain that is selected in addition changes nothing of what is listed;
/// it follows where it is not listed yet, and what it includes comes behind it.
pub proof fn lemma_selection_keeps_its_order(
    graph: IncludeGraph,
    selection: Seq<Seq<char>>,
    name: Seq<char>,
)
    requires
        graph.dom().finite(),
        expansion(graph, selection.push(name)) is Ok,
    ensures
        expansion(graph, selection) is Ok,
        ({
            let before = expansion(graph, selection)->Ok_0;
            let after = expansion(graph, selection.push(name))->Ok_0;
            &&& before.is_prefix_of(after)
            &&& before.contains(name) ==> after == before
            &&& !before.contains(name) ==> before.push(name).is_prefix_of(after)
        }),
        expansion(graph, Seq::empty()) == Ok::<
            Seq<Seq<char>>,
            crate::toolchain::SelectionProblem,
        >(Seq::empty()),
{
    let none = Seq::<Seq<char>>::empty();
    assert(selection.push(name).drop_last() =~= selection);
    let before = expansion(graph, selection)->Ok_0;
    lemma_one_extends(graph, name, before, none);
}

/// A definition of the configuration itself stands before one of the user's
/// library; in each the first of its name counts.
pub proof fn lemma_own_definition_counts(config: &Config, name: Seq<char>, i: int)
    ensures
        0 <= i < config.toolchain_defs@.len() && config.toolchain_defs@[i].0@ == name && (forall|
            j: int,
        |
            0 <= j < i ==> (#[trigger] config.toolchain_defs@[j]).0@ != name) ==> config.def_of(
            name,
        ) == Some(config.toolchain_defs@[i].1),
        0 <= i < config.global_toolchains@.len() && config.global_toolchains@[i].0@ == name && (
        forall|j: int|
            0 <= j < i ==> (#[trigger] config.global_toolchains@[j]).0@ != name) && (forall|
            j: int,
        |
            0 <= j < config.toolchain_defs@.len() ==> (#[trigger] config.toolchain_defs@[j]).0@
                != name) ==> config.def_of(name) == Some(config.global_toolchains@[i].1),
{
    lemma_first_entry(config.toolchain_defs@, name, i);
    lemma_first_entry(config.global_toolchains@, name, i);
    if forall|j: int|
        0 <= j < config.toolchain_defs@.len() ==> (#[trigger] config.toolchain_defs@[j]).0@
            != name {
        lemma_no_entry(config.toolchain_defs@, name);
    }
}

proof fn lemma_no_entry(table: Seq<(String, ToolchainDef)>, name: Seq<char>)
    requires
        forall|j: int| 0 <= j < table.len() ==> (#[trigger] table[j]).0@ != name,
    ensures
        entry_named(table, name) is None,
    decreases table.len(),
{
    if table.len() > 0 {
        let rest = table.skip(1);
        assert forall|j: int| 0 <= j < rest.len() implies (#[trigger] rest[j]).0@ != name by {
            assert(rest[j] == table[j + 1]);
        }
        lemma_no_entry(rest, name);
        assert(table[0].0@ != name);
    }
}

proof fn lemma_first_entry(table: Seq<(String, ToolchainDef)>, name: Seq<char>, i: int)
    ensures
        0 <= i < table.len() && table[i].0@ == name && (forall|j: int|
            0 <= j < i ==> (#[trigger] table[j]).0@ != name) ==> entry_named(table, name) == Some(
            table[i].1,
        ),
    decreases table.len(),
{
    if 0 < i < table.len() && table[i].0@ == name && (forall|j: int|
        0 <= j < i ==> (#[trigger] table[j]).0@ != name) {
        let rest = table.skip(1);
        assert(table[0].0@ != name);
        assert forall|j: int| 0 <= j < i - 1 implies (#[trigger] rest[j]).0@ != name by {
            assert(rest[j] == table[j + 1]);
        }
        assert(rest[i - 1] == table[i]);
        lemma_first_entry(rest, name, i - 1);
    }
}

/// A character that stays as it is in a name.
pub open spec fn stays(c: char) -> bool {
    ||| 'a' <= c <= 'z'
    ||| 'A' <= c <= 'Z'
    ||| '0' <= c <= '9'
    ||| c == '-'
    ||| c == '_'
    ||| c == '.'
}

/// A name keeps its characters but for those that have no place in it, each of
/// which becomes a dash; a session's is cut to 32, and has none at its ends.
pub proof fn lemma_names_keep_their_characters(name: Seq<char>, i: int)
    ensures
        dashed(name).len() == name.len(),
        0 <= i < name.len() ==> dashed(name)[i] == (if stays(name[i]) {
            name[i]
        } else {
            '-'
        }),
        ({
            let inner = trimmed(dashed(name), CharSet::One('-'));
            &&& inner.len() == 0 ==> sanitized(name) == "repo"@
            &&& 0 < inner.len() <= 32 ==> sanitized(name) == inner
            &&& inner.len() > 32 ==> sanitized(name).len() == 32 && sanitized(
                name,
            ).is_prefix_of(inner)
        }),
{
    let inner = trimmed(dashed(name), CharSet::One('-'));
    if inner.len() > 32 {
        assert(inner.take(32).is_prefix_of(inner));
    }
}

/// A session's id begins with the name of its repository and ends in its suffix.
pub proof fn lemma_id_names_the_repository(
    dir: Seq<char>,
    name: Seq<char>,
    suffix: Seq<char>,
)
    requires
        super::copying::plain_name(name),
        name != ".."@,
    ensures
        session_id(crate::paths::path_join(dir, name), suffix) == sanitized(name) + "-"@ + suffix,
{
    reveal_strlit("/");
    super::copying::lemma_entry_is_one_deeper(dir, name);
    assert("/"@ =~= seq!['/']);
    if name == "/"@ {
        assert(name[0] == '/');
    }
}

/// Two sides look the same where they are the same, unless one of them could
/// not be looked at or is special; it does not matter which side is which.
pub proof fn lemma_look_compares_contents(first: LookView, second: LookView)
    ensures
        same_look(first, second) <==> first == second && !(first is Unreadable)
            && !(first is Special),
        same_look(first, second) == same_look(second, first),
{
}

/// The directories above a path are what is left of it as its components go,
/// the nearest first, up to the root or to nothing.
pub proof fn lemma_directories_above(components: Seq<Seq<char>>, i: int)
    requires
        0 <= i < components.len(),
        forall|j: int| i <= j < components.len() ==> #[trigger] components[j] != "/"@,
    ensures
        above(components).len() > components.len() - 1 - i,
        above(components)[components.len() - 1 - i] == path_of(components.take(i)),
    decreases components.len(),
{
    let front = components.drop_last();
    assert(components[components.len() - 1] != "/"@);
    if i == components.len() - 1 {
        assert(components.take(i) =~= front);
    } else {
        assert forall|j: int| i <= j < front.len() implies #[trigger] front[j] != "/"@ by {
            assert(front[j] == components[j]);
        }
        lemma_directories_above(front, i);
        assert(front.take(i) =~= components.take(i));
    }
}

} // verus!
