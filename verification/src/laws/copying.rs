//! Which entries of a directory a session takes along, finds, removes and
//! places: all but those that a pattern names, and the repository's own data
//! where a session must not touch it.

use crate::paths::{
    any_matches, components_of, excluded, named_parts, parts_at, path_is_absolute, path_join,
    pattern_matches, };
use crate::sandbox::{
    copied, goes, kept_dirs, kept_paths, placed, placement_for, removed_names, Counterpart,
    EntryView, Kind, Placement,
};
use crate::text::{free_of, lemma_one_piece, lemma_pieces_add, pieces};
use vstd::prelude::*;
use vstd::string::*;

verus! {

/// The name of one entry of a directory.
pub open spec fn plain_name(name: Seq<char>) -> bool {
    name.len() > 0 && free_of(name, '/') && name != "."@
}

proof fn lemma_rooted(path: Seq<char>)
    ensures
        path_is_absolute(path) == (path.len() > 0 && path[0] == '/'),
{
    reveal_strlit("/");
    if path.len() > 0 {
        assert(path.take(1) =~= seq![path[0]]);
        assert("/"@ =~= seq!['/']);
        assert(seq![path[0]][0] == path[0]);
        assert(seq!['/'][0] == '/');
    }
}

proof fn lemma_named_push(parts: Seq<Seq<char>>, rooted: bool, part: Seq<char>)
    ensures
        named_parts(parts.push(part), rooted) == (if part.len() == 0 || (part == "."@ && (rooted
            || parts.len() > 0)) {
            named_parts(parts, rooted)
        } else {
            named_parts(parts, rooted).push(part)
        }),
{
    assert(parts.push(part).drop_last() =~= parts);
}

/// An entry of a directory is one component deeper than the directory.
pub proof fn lemma_entry_is_one_deeper(dir: Seq<char>, name: Seq<char>)
    requires
        plain_name(name),
    ensures
        components_of(path_join(dir, name)) == components_of(dir).push(name),
        path_join(dir, name).len() >= name.len(),
{
    reveal_strlit("/");
    let path = path_join(dir, name);
    assert(name[0] != '/');
    lemma_rooted(name);
    lemma_rooted(dir);
    lemma_rooted(path);
    lemma_one_piece(name, '/');
    if dir.len() == 0 {
        assert(path =~= name);
        assert(dir =~= Seq::empty());
        assert(pieces(dir, '/') =~= seq![Seq::<char>::empty()]);
        let none = Seq::<Seq<char>>::empty();
        lemma_named_push(none, false, Seq::empty());
        assert(none.push(Seq::<char>::empty()) =~= seq![Seq::<char>::empty()]);
        lemma_named_push(none, false, name);
        assert(none.push(name) =~= seq![name]);
        assert(components_of(path) =~= components_of(dir).push(name));
    } else if dir.last() == '/' {
        let front = dir.drop_last();
        lemma_pieces_add(front, name, '/');
        assert(front.push('/') + name =~= path);
        assert(pieces(path, '/') =~= pieces(front, '/').push(name));
        assert(pieces(dir, '/') == pieces(front, '/').push(Seq::empty()));
        let rooted = path_is_absolute(dir);
        assert(path[0] == dir[0]);
        lemma_named_push(pieces(front, '/'), rooted, name);
        lemma_named_push(pieces(front, '/'), rooted, Seq::empty());
        assert(components_of(path) =~= components_of(dir).push(name));
    } else {
        lemma_pieces_add(dir, name, '/');
        assert(dir.push('/') + name =~= path);
        assert(pieces(path, '/') =~= pieces(dir, '/').push(name));
        let rooted = path_is_absolute(dir);
        assert(path[0] == dir[0]);
        lemma_named_push(pieces(dir, '/'), rooted, name);
        assert(components_of(path) =~= components_of(dir).push(name));
    }
}

/// The components of one of the patterns occur in the path, in a row.
pub open spec fn named_by(path: Seq<char>, patterns: Seq<Seq<char>>) -> bool {
    exists|i: int, at: int|
        0 <= i < patterns.len() && #[trigger] runs_through(path, patterns[i], at)
}

pub open spec fn runs_through(path: Seq<char>, pattern: Seq<char>, at: int) -> bool {
    let whole = components_of(path);
    let part = components_of(pattern);
    0 <= at && at + part.len() <= whole.len() && whole.subrange(at, at + part.len()) == part
}

/// The path is the repository's own data, or one of the patterns names it.
pub open spec fn left_alone(path: Seq<char>, patterns: Seq<Seq<char>>) -> bool {
    ||| components_of(path).len() > 0 && components_of(path)[0] == ".git"@
    ||| named_by(path, patterns)
}

proof fn lemma_parts_are_a_row(whole: Seq<Seq<char>>, parts: Seq<Seq<char>>, at: int)
    ensures
        parts_at(whole, parts, at) == (0 <= at && at + parts.len() <= whole.len()
            && whole.subrange(at, at + parts.len()) == parts),
{
    if 0 <= at && at + parts.len() <= whole.len() {
        let row = whole.subrange(at, at + parts.len());
        if parts_at(whole, parts, at) {
            assert(row =~= parts);
        }
        if row == parts {
            assert forall|k: int| 0 <= k < parts.len() implies #[trigger] parts[k] == whole[at
                + k] by {
                assert(row[k] == whole[at + k]);
            }
        }
    }
}

/// A pattern matches where its components occur in the path, in a row.
pub proof fn lemma_match_is_a_row(path: Seq<char>, patterns: Seq<Seq<char>>)
    ensures
        any_matches(path, patterns) == named_by(path, patterns),
{
    if any_matches(path, patterns) {
        let i = choose|i: int|
            0 <= i < patterns.len() && pattern_matches(path, #[trigger] patterns[i]);
        let at = choose|at: int| #[trigger]
            parts_at(components_of(path), components_of(patterns[i]), at);
        lemma_parts_are_a_row(components_of(path), components_of(patterns[i]), at);
        assert(runs_through(path, patterns[i], at));
    }
    if named_by(path, patterns) {
        let (i, at) = choose|i: int, at: int|
            0 <= i < patterns.len() && #[trigger] runs_through(path, patterns[i], at);
        lemma_parts_are_a_row(components_of(path), components_of(patterns[i]), at);
        assert(parts_at(components_of(path), components_of(patterns[i]), at));
        assert(pattern_matches(path, patterns[i]));
    }
}

/// Sessions leave alone what lies below `.git`, and what a pattern names.
pub proof fn lemma_excluded_is_left_alone(path: Seq<char>, patterns: Seq<Seq<char>>)
    ensures
        excluded(path, patterns) == left_alone(path, patterns),
{
    lemma_match_is_a_row(path, patterns);
    reveal_strlit(".git");
    reveal_strlit(".");
    let git = ".git"@;
    let none = Seq::<Seq<char>>::empty();
    lemma_one_piece(git, '/');
    lemma_rooted(git);
    lemma_named_push(none, false, git);
    assert(none.push(git) =~= seq![git]);
    assert(components_of(git) =~= seq![git]);
    let whole = components_of(path);
    lemma_parts_are_a_row(whole, seq![git], 0);
    if whole.len() > 0 {
        assert(whole.subrange(0, 1) =~= seq![whole[0]]);
        assert(seq![whole[0]][0] == whole[0]);
        assert(seq![git][0] == git);
    }
}

proof fn lemma_filter_last<A>(list: Seq<A>, keep: spec_fn(A) -> bool)
    requires
        list.len() > 0,
    ensures
        list.filter(keep) == (if keep(list.last()) {
            list.drop_last().filter(keep).push(list.last())
        } else {
            list.drop_last().filter(keep)
        }),
{
    reveal(Seq::filter);
}

proof fn lemma_filter_none<A>(keep: spec_fn(A) -> bool)
    ensures
        Seq::<A>::empty().filter(keep) == Seq::<A>::empty(),
{
    reveal(Seq::filter);
}

proof fn lemma_map_push<A, B>(list: Seq<A>, item: A, f: spec_fn(A) -> B)
    ensures
        list.push(item).map_values(f) == list.map_values(f).push(f(item)),
{
    assert(list.push(item).map_values(f) =~= list.map_values(f).push(f(item)));
}

/// A copy takes, in their order, all entries of a directory but those that a
/// pattern names: the directories to go into, and everything else. The
/// repository's own data goes along like any other entry.
pub proof fn lemma_copy_leaves_only_named(
    dir: Seq<char>,
    list: Seq<EntryView>,
    ignore: Seq<Seq<char>>,
)
    ensures
        copied(dir, list, ignore, false) == list.filter(
            |entry: EntryView|
                entry.kind != Kind::Directory && !named_by(path_join(dir, entry.name), ignore),
        ).map_values(|entry: EntryView| entry.name),
        copied(dir, list, ignore, true) == list.filter(
            |entry: EntryView|
                entry.kind == Kind::Directory && !named_by(path_join(dir, entry.name), ignore),
        ).map_values(|entry: EntryView| entry.name),
    decreases list.len(),
{
    let file = |entry: EntryView|
        entry.kind != Kind::Directory && !named_by(path_join(dir, entry.name), ignore);
    let directory = |entry: EntryView|
        entry.kind == Kind::Directory && !named_by(path_join(dir, entry.name), ignore);
    let name = |entry: EntryView| entry.name;
    if list.len() == 0 {
        assert(list =~= Seq::empty());
        lemma_filter_none(file);
        lemma_filter_none(directory);
        assert(Seq::<EntryView>::empty().map_values(name) =~= Seq::empty());
    } else {
        let front = list.drop_last();
        lemma_copy_leaves_only_named(dir, front, ignore);
        lemma_filter_last(list, file);
        lemma_filter_last(list, directory);
        lemma_map_push(front.filter(file), list.last(), name);
        lemma_map_push(front.filter(directory), list.last(), name);
        lemma_match_is_a_row(path_join(dir, list.last().name), ignore);
    }
}

/// Without patterns a copy takes every entry of a directory, the repository's
/// own data among them.
pub proof fn lemma_copy_without_patterns_is_whole(dir: Seq<char>, list: Seq<EntryView>, i: int)
    requires
        0 <= i < list.len(),
    ensures
        list[i].kind == Kind::Directory ==> copied(dir, list, Seq::empty(), true).contains(
            list[i].name,
        ),
        list[i].kind != Kind::Directory ==> copied(dir, list, Seq::empty(), false).contains(
            list[i].name,
        ),
        copied(dir, list, Seq::empty(), true).len() + copied(
            dir,
            list,
            Seq::empty(),
            false,
        ).len() == list.len(),
    decreases list.len(),
{
    let none = Seq::<Seq<char>>::empty();
    let front = list.drop_last();
    let directory = list[i].kind == Kind::Directory;
    let before = copied(dir, front, none, directory);
    let after = copied(dir, list, none, directory);
    lemma_match_is_a_row(path_join(dir, list.last().name), none);
    if i == list.len() - 1 {
        assert(after[before.len() as int] == list[i].name);
        if front.len() > 0 {
            lemma_copy_without_patterns_is_whole(dir, front, 0);
        }
    } else {
        lemma_copy_without_patterns_is_whole(dir, front, i);
        assert(front[i] == list[i]);
        let j = choose|j: int| 0 <= j < before.len() && before[j] == list[i].name;
        assert(after[j] == list[i].name);
    }
}

/// A walk finds, in their order, all entries of a directory that sessions do
/// not leave alone, and goes into those of them that are directories.
pub proof fn lemma_walk_finds_the_rest(
    dir: Seq<char>,
    list: Seq<EntryView>,
    unmanaged: Seq<Seq<char>>,
)
    ensures
        kept_paths(dir, list, unmanaged) == list.map_values(
            |entry: EntryView| path_join(dir, entry.name),
        ).filter(|path: Seq<char>| !left_alone(path, unmanaged)),
        kept_dirs(dir, list, unmanaged) == list.filter(
            |entry: EntryView| entry.kind == Kind::Directory,
        ).map_values(|entry: EntryView| path_join(dir, entry.name)).filter(
            |path: Seq<char>| !left_alone(path, unmanaged),
        ),
    decreases list.len(),
{
    let keep = |path: Seq<char>| !left_alone(path, unmanaged);
    let below = |entry: EntryView| path_join(dir, entry.name);
    let directory = |entry: EntryView| entry.kind == Kind::Directory;
    if list.len() == 0 {
        assert(list =~= Seq::empty());
        assert(list.map_values(below) =~= Seq::empty());
        lemma_filter_none(keep);
        lemma_filter_none(directory);
    } else {
        let front = list.drop_last();
        let last = list.last();
        let path = path_join(dir, last.name);
        lemma_walk_finds_the_rest(dir, front, unmanaged);
        lemma_excluded_is_left_alone(path, unmanaged);
        assert(list =~= front.push(last));
        lemma_map_push(front, last, below);
        let all = list.map_values(below);
        assert(all.drop_last() =~= front.map_values(below));
        lemma_filter_last(all, keep);
        lemma_filter_last(list, directory);
        if last.kind == Kind::Directory {
            let some = front.filter(directory);
            lemma_map_push(some, last, below);
            let found = some.push(last).map_values(below);
            assert(found.drop_last() =~= some.map_values(below));
            lemma_filter_last(found, keep);
        }
    }
}

/// Before a directory is mirrored, those entries of the destination go that the
/// source does not have and that sessions do not leave alone.
pub proof fn lemma_removals_are_the_surplus(
    dir: Seq<char>,
    list: Seq<Counterpart>,
    unmanaged: Seq<Seq<char>>,
)
    ensures
        removed_names(dir, list, unmanaged) == list.filter(
            |entry: Counterpart|
                !entry.in_source && !left_alone(path_join(dir, entry.name@), unmanaged),
        ).map_values(|entry: Counterpart| entry.name@),
    decreases list.len(),
{
    let surplus = |entry: Counterpart|
        !entry.in_source && !left_alone(path_join(dir, entry.name@), unmanaged);
    let name = |entry: Counterpart| entry.name@;
    if list.len() == 0 {
        assert(list =~= Seq::empty());
        lemma_filter_none(surplus);
        assert(Seq::<Counterpart>::empty().map_values(name) =~= Seq::empty());
    } else {
        let front = list.drop_last();
        lemma_removals_are_the_surplus(dir, front, unmanaged);
        lemma_filter_last(list, surplus);
        lemma_map_push(front.filter(surplus), list.last(), name);
        lemma_excluded_is_left_alone(path_join(dir, list.last().name@), unmanaged);
        assert(goes(dir, list.last().name@, list.last().in_source, unmanaged) == surplus(
            list.last(),
        ));
    }
}

/// What is made of an entry, by its kind.
pub open spec fn made_of(entry: EntryView) -> (Seq<char>, Placement) {
    (
        entry.name,
        if entry.kind == Kind::Directory {
            Placement::Descend
        } else if entry.kind == Kind::File {
            Placement::CopyFile
        } else if entry.kind == Kind::Link {
            Placement::MakeLink
        } else {
            Placement::Skip
        },
    )
}

/// All entries of the source that sessions do not leave alone are placed, in
/// their order: directories are gone into, files copied, links made, and only
/// special files passed over.
pub proof fn lemma_placements_are_complete(
    dir: Seq<char>,
    list: Seq<EntryView>,
    unmanaged: Seq<Seq<char>>,
)
    ensures
        placed(dir, list, unmanaged) == list.filter(
            |entry: EntryView| !left_alone(path_join(dir, entry.name), unmanaged),
        ).map_values(|entry: EntryView| made_of(entry)),
    decreases list.len(),
{
    let keep = |entry: EntryView| !left_alone(path_join(dir, entry.name), unmanaged);
    let made = |entry: EntryView| made_of(entry);
    if list.len() == 0 {
        assert(list =~= Seq::empty());
        lemma_filter_none(keep);
        assert(Seq::<EntryView>::empty().map_values(made) =~= Seq::empty());
    } else {
        let front = list.drop_last();
        lemma_placements_are_complete(dir, front, unmanaged);
        lemma_filter_last(list, keep);
        lemma_map_push(front.filter(keep), list.last(), made);
        lemma_excluded_is_left_alone(path_join(dir, list.last().name), unmanaged);
        assert(placement_for(list.last().kind) == made_of(list.last()).1);
    }
}

} // verus!
