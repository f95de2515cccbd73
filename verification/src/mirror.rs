//! What mirroring one tree into another comes to: the laws of the steps that
//! `sandbox` plans, over trees as mathematical objects.

use crate::paths::{excluded, path_join};
use crate::sandbox::{
    entries, goes, kept_dirs, kept_paths, placement_for, same_look, EntryView, Kind, LookView,
    Placement,
};
use vstd::prelude::*;

verus! {

/// Something in a file system.
pub enum Node {
    File(Seq<u8>),
    Link(Seq<char>),
    Special,
    Directory(Map<Seq<char>, Node>),
}

/// The entries of a directory, by name.
pub type Tree = Map<Seq<char>, Node>;

pub open spec fn kind_of(node: Node) -> Kind {
    match node {
        Node::File(_) => Kind::File,
        Node::Link(_) => Kind::Link,
        Node::Special => Kind::Special,
        Node::Directory(_) => Kind::Directory,
    }
}

/// What a look at a name shows.
pub open spec fn look_at(tree: Tree, name: Seq<char>) -> LookView {
    if tree.dom().contains(name) {
        match tree[name] {
            Node::File(content) => LookView::File(content),
            Node::Link(target) => LookView::Link(target),
            Node::Special => LookView::Special,
            Node::Directory(_) => LookView::Directory,
        }
    } else {
        LookView::Missing
    }
}

/// The directory of that name; an empty one where there is none.
pub open spec fn below(tree: Tree, name: Seq<char>) -> Tree {
    if tree.dom().contains(name) {
        match tree[name] {
            Node::Directory(inner) => inner,
            _ => Map::empty(),
        }
    } else {
        Map::empty()
    }
}

/// The entries of a directory; anything else has none.
pub open spec fn inside(node: Node) -> Tree {
    match node {
        Node::Directory(inner) => inner,
        _ => Map::empty(),
    }
}

/// A directory after another has been mirrored into it. Where a name takes
/// part, it stands for what the source has; where it does not, for what was
/// there. A special file of the source changes nothing.
pub open spec fn mirrored(
    source: Node,
    destination: Tree,
    dir: Seq<char>,
    unmanaged: Seq<Seq<char>>,
) -> Tree
    decreases source,
{
    Map::new(
        |name: Seq<char>|
            if excluded(path_join(dir, name), unmanaged) || (inside(source).dom().contains(name)
                && inside(source)[name] is Special) {
                destination.dom().contains(name)
            } else {
                inside(source).dom().contains(name)
            },
        |name: Seq<char>|
            match source {
                Node::Directory(entries) => if excluded(path_join(dir, name), unmanaged)
                    || !entries.dom().contains(name) || entries[name] is Special {
                    destination[name]
                } else if entries[name] is Directory {
                    Node::Directory(
                        mirrored(
                            entries[name],
                            below(destination, name),
                            path_join(dir, name),
                            unmanaged,
                        ),
                    )
                } else {
                    entries[name]
                },
                _ => destination[name],
            },
    )
}

/// Whether the source has something of that name when links are followed;
/// `alive` tells which links lead somewhere.
pub open spec fn in_source(
    source: Tree,
    dir: Seq<char>,
    name: Seq<char>,
    alive: spec_fn(Seq<char>) -> bool,
) -> bool {
    source.dom().contains(name) && (source[name] is Link ==> alive(path_join(dir, name)))
}

/// What is left of a name once the removals of its directory are done.
pub open spec fn left(
    source: Tree,
    destination: Tree,
    dir: Seq<char>,
    name: Seq<char>,
    alive: spec_fn(Seq<char>) -> bool,
    unmanaged: Seq<Seq<char>>,
) -> Option<Node> {
    if destination.dom().contains(name) && !goes(
        dir,
        name,
        in_source(source, dir, name, alive),
        unmanaged,
    ) {
        Some(destination[name])
    } else {
        None
    }
}

/// A placement fails where something else is in its way: a directory where a
/// file or a link is to be, anything at all where a link is to be, and
/// anything but a directory where a directory is to be.
pub open spec fn in_the_way(placement: Placement, there: Option<Node>) -> bool {
    match placement {
        Placement::Descend => there is Some && !(there->Some_0 is Directory),
        Placement::CopyFile => there is Some && there->Some_0 is Directory,
        Placement::MakeLink => there is Some,
        Placement::Skip => false,
    }
}

/// A directory after the planned removals and placements have been carried
/// out in it and below it.
pub open spec fn carried_out(
    source: Node,
    destination: Tree,
    dir: Seq<char>,
    alive: spec_fn(Seq<char>) -> bool,
    unmanaged: Seq<Seq<char>>,
) -> Tree
    decreases source,
{
    Map::new(
        |name: Seq<char>|
            left(inside(source), destination, dir, name, alive, unmanaged) is Some || (inside(
                source,
            ).dom().contains(name) && !excluded(path_join(dir, name), unmanaged)
                && placement_for(kind_of(inside(source)[name])) != Placement::Skip),
        |name: Seq<char>|
            match source {
                Node::Directory(entries) => {
                    let there = left(entries, destination, dir, name, alive, unmanaged);
                    if !entries.dom().contains(name) || excluded(path_join(dir, name), unmanaged) {
                        there->Some_0
                    } else {
                        match placement_for(kind_of(entries[name])) {
                            Placement::Descend => Node::Directory(
                                carried_out(
                                    entries[name],
                                    if there is Some {
                                        inside(there->Some_0)
                                    } else {
                                        Map::empty()
                                    },
                                    path_join(dir, name),
                                    alive,
                                    unmanaged,
                                ),
                            ),
                            Placement::CopyFile => entries[name],
                            Placement::MakeLink => entries[name],
                            Placement::Skip => there->Some_0,
                        }
                    }
                },
                _ => left(inside(source), destination, dir, name, alive, unmanaged)->Some_0,
            },
    )
}

/// Nothing is in the way of any placement, here or below.
pub open spec fn way_is_clear(
    source: Node,
    destination: Tree,
    dir: Seq<char>,
    alive: spec_fn(Seq<char>) -> bool,
    unmanaged: Seq<Seq<char>>,
) -> bool
    decreases source,
{
    match source {
        Node::Directory(entries) => forall|name: Seq<char>| #[trigger]
            entries.dom().contains(name) && !excluded(path_join(dir, name), unmanaged) ==> {
                &&& !in_the_way(
                    placement_for(kind_of(entries[name])),
                    left(entries, destination, dir, name, alive, unmanaged),
                )
                &&& entries[name] is Directory ==> way_is_clear(
                    entries[name],
                    below(destination, name),
                    path_join(dir, name),
                    alive,
                    unmanaged,
                )
            },
        _ => true,
    }
}

/// Carrying out the planned steps makes the destination the mirror of the
/// source.
pub proof fn lemma_steps_mirror(
    source: Node,
    destination: Tree,
    dir: Seq<char>,
    alive: spec_fn(Seq<char>) -> bool,
    unmanaged: Seq<Seq<char>>,
)
    requires
        source is Directory,
        way_is_clear(source, destination, dir, alive, unmanaged),
    ensures
        carried_out(source, destination, dir, alive, unmanaged) == mirrored(
            source,
            destination,
            dir,
            unmanaged,
        ),
    decreases source,
{
    let entries = inside(source);
    let done = carried_out(source, destination, dir, alive, unmanaged);
    let wanted = mirrored(source, destination, dir, unmanaged);
    assert forall|name: Seq<char>| #[trigger] done.dom().contains(name) <==> wanted.dom().contains(
        name,
    ) by {
        if entries.dom().contains(name) && !excluded(path_join(dir, name), unmanaged) {
            assert(!in_the_way(
                placement_for(kind_of(entries[name])),
                left(entries, destination, dir, name, alive, unmanaged),
            ));
        }
    }
    assert forall|name: Seq<char>| #[trigger] done.dom().contains(name) implies done[name]
        == wanted[name] by {
        if entries.dom().contains(name) && !excluded(path_join(dir, name), unmanaged)
            && entries[name] is Directory {
            assert(way_is_clear(
                entries[name],
                below(destination, name),
                path_join(dir, name),
                alive,
                unmanaged,
            ));
            lemma_steps_mirror(
                entries[name],
                below(destination, name),
                path_join(dir, name),
                alive,
                unmanaged,
            );
            let there = left(entries, destination, dir, name, alive, unmanaged);
            assert(below(destination, name) == (if there is Some {
                inside(there->Some_0)
            } else {
                Map::empty()
            }));
        }
    }
    assert(done =~= wanted);
}

/// Two trees show no difference: under every name that takes part, here and
/// below, a look at one side shows what a look at the other shows.
pub open spec fn no_difference(
    source: Node,
    other: Tree,
    dir: Seq<char>,
    unmanaged: Seq<Seq<char>>,
) -> bool
    decreases source,
{
    match source {
        Node::Directory(entries) => forall|name: Seq<char>|
            !excluded(#[trigger] path_join(dir, name), unmanaged) ==> {
                &&& same_look(look_at(entries, name), look_at(other, name))
                &&& entries.dom().contains(name) && entries[name] is Directory ==> no_difference(
                    entries[name],
                    below(other, name),
                    path_join(dir, name),
                    unmanaged,
                )
            },
        _ => true,
    }
}

/// No special file takes part.
pub open spec fn without_specials(source: Node, dir: Seq<char>, unmanaged: Seq<Seq<char>>) -> bool
    decreases source,
{
    match source {
        Node::Directory(entries) => forall|name: Seq<char>| #[trigger]
            entries.dom().contains(name) && !excluded(path_join(dir, name), unmanaged) ==> !(
            entries[name] is Special) && (entries[name] is Directory ==> without_specials(
                entries[name],
                path_join(dir, name),
                unmanaged,
            )),
        _ => true,
    }
}

/// After the source has been mirrored, no change is left to detect.
pub proof fn lemma_mirror_leaves_no_change(
    source: Node,
    destination: Tree,
    dir: Seq<char>,
    unmanaged: Seq<Seq<char>>,
)
    requires
        source is Directory,
        without_specials(source, dir, unmanaged),
    ensures
        no_difference(source, mirrored(source, destination, dir, unmanaged), dir, unmanaged),
    decreases source,
{
    let entries = inside(source);
    let result = mirrored(source, destination, dir, unmanaged);
    assert forall|name: Seq<char>| !excluded(#[trigger] path_join(dir, name), unmanaged) implies {
        &&& same_look(look_at(entries, name), look_at(result, name))
        &&& entries.dom().contains(name) && entries[name] is Directory ==> no_difference(
            entries[name],
            below(result, name),
            path_join(dir, name),
            unmanaged,
        )
    } by {
        if entries.dom().contains(name) {
            assert(!(entries[name] is Special));
            assert(result.dom().contains(name));
            if entries[name] is Directory {
                lemma_mirror_leaves_no_change(
                    entries[name],
                    below(destination, name),
                    path_join(dir, name),
                    unmanaged,
                );
                assert(below(result, name) == mirrored(
                    entries[name],
                    below(destination, name),
                    path_join(dir, name),
                    unmanaged,
                ));
            }
        } else {
            assert(!result.dom().contains(name));
        }
    }
}

/// Mirroring twice changes no more than mirroring once, so that pulls can be
/// repeated.
pub proof fn lemma_mirror_idempotent(
    source: Node,
    destination: Tree,
    dir: Seq<char>,
    unmanaged: Seq<Seq<char>>,
)
    requires
        source is Directory,
    ensures
        mirrored(source, mirrored(source, destination, dir, unmanaged), dir, unmanaged) == mirrored(
            source,
            destination,
            dir,
            unmanaged,
        ),
    decreases source,
{
    let entries = inside(source);
    let once = mirrored(source, destination, dir, unmanaged);
    let twice = mirrored(source, once, dir, unmanaged);
    assert forall|name: Seq<char>| #[trigger] twice.dom().contains(name) <==> once.dom().contains(
        name,
    ) by {}
    assert forall|name: Seq<char>| #[trigger] twice.dom().contains(name) implies twice[name]
        == once[name] by {
        if entries.dom().contains(name) && !excluded(path_join(dir, name), unmanaged)
            && entries[name] is Directory {
            lemma_mirror_idempotent(
                entries[name],
                below(destination, name),
                path_join(dir, name),
                unmanaged,
            );
            assert(below(once, name) == mirrored(
                entries[name],
                below(destination, name),
                path_join(dir, name),
                unmanaged,
            ));
        }
    }
    assert(twice =~= once);
}

/// Where a chain of names leads, directory by directory.
pub open spec fn descend(tree: Tree, names: Seq<Seq<char>>) -> Tree
    decreases names.len(),
{
    if names.len() == 0 {
        tree
    } else {
        descend(below(tree, names[0]), names.skip(1))
    }
}

pub open spec fn path_below(dir: Seq<char>, names: Seq<Seq<char>>) -> Seq<char>
    decreases names.len(),
{
    if names.len() == 0 {
        dir
    } else {
        path_below(path_join(dir, names[0]), names.skip(1))
    }
}

/// The source has these directories, and all of them take part.
pub open spec fn reaches(
    source: Node,
    dir: Seq<char>,
    names: Seq<Seq<char>>,
    unmanaged: Seq<Seq<char>>,
) -> bool
    decreases names.len(),
{
    names.len() == 0 || {
        &&& inside(source).dom().contains(names[0])
        &&& inside(source)[names[0]] is Directory
        &&& !excluded(path_join(dir, names[0]), unmanaged)
        &&& reaches(
            inside(source)[names[0]],
            path_join(dir, names[0]),
            names.skip(1),
            unmanaged,
        )
    }
}

/// In every directory that the source has and that takes part, what does not
/// take part stays as it was.
pub proof fn lemma_unmanaged_stays(
    source: Node,
    destination: Tree,
    dir: Seq<char>,
    unmanaged: Seq<Seq<char>>,
    names: Seq<Seq<char>>,
    name: Seq<char>,
)
    requires
        source is Directory,
        reaches(source, dir, names, unmanaged),
        excluded(path_join(path_below(dir, names), name), unmanaged),
    ensures
        ({
            let before = descend(destination, names);
            let after = descend(mirrored(source, destination, dir, unmanaged), names);
            &&& after.dom().contains(name) <==> before.dom().contains(name)
            &&& before.dom().contains(name) ==> after[name] == before[name]
        }),
    decreases names.len(),
{
    let result = mirrored(source, destination, dir, unmanaged);
    if names.len() > 0 {
        let first = names[0];
        let inner = inside(source)[first];
        assert(result.dom().contains(first));
        assert(below(result, first) == mirrored(
            inner,
            below(destination, first),
            path_join(dir, first),
            unmanaged,
        ));
        lemma_unmanaged_stays(
            inner,
            below(destination, first),
            path_join(dir, first),
            unmanaged,
            names.skip(1),
            name,
        );
    }
}

/// The paths that a walk through a tree finds.
pub open spec fn visible(node: Node, dir: Seq<char>, unmanaged: Seq<Seq<char>>) -> Set<Seq<char>>
    decreases node,
{
    match node {
        Node::Directory(entries) => Set::new(
            |path: Seq<char>|
                exists|name: Seq<char>| #[trigger]
                    entries.dom().contains(name) && !excluded(path_join(dir, name), unmanaged) && (
                    path == path_join(dir, name) || (entries[name] is Directory && visible(
                        entries[name],
                        path_join(dir, name),
                        unmanaged,
                    ).contains(path))),
        ),
        _ => Set::empty(),
    }
}

/// `list` holds the entries of a directory.
pub open spec fn lists_entries(list: Seq<EntryView>, node: Node) -> bool {
    &&& forall|name: Seq<char>| #[trigger]
        inside(node).dom().contains(name) ==> exists|i: int|
            0 <= i < list.len() && (#[trigger] list[i]).name == name
    &&& forall|i: int|
        0 <= i < list.len() ==> inside(node).dom().contains((#[trigger] list[i]).name) && kind_of(
            inside(node)[list[i].name],
        ) == list[i].kind
}

/// The directories of a listing that take part, with what is in them.
pub open spec fn kept_nodes(
    dir: Seq<char>,
    list: Seq<EntryView>,
    node: Node,
    unmanaged: Seq<Seq<char>>,
) -> Seq<(Seq<char>, Node)>
    decreases list.len(),
{
    if list.len() == 0 {
        Seq::empty()
    } else {
        let before = kept_nodes(dir, list.drop_last(), node, unmanaged);
        let child = path_join(dir, list.last().name);
        if excluded(child, unmanaged) || list.last().kind != Kind::Directory {
            before
        } else {
            before.push((child, inside(node)[list.last().name]))
        }
    }
}

/// A directory that is still to be read holds `path`.
pub open spec fn ahead(
    pending: Seq<(Seq<char>, Node)>,
    unmanaged: Seq<Seq<char>>,
    path: Seq<char>,
) -> bool {
    exists|i: int|
        0 <= i < pending.len() && visible(
            (#[trigger] pending[i]).1,
            pending[i].0,
            unmanaged,
        ).contains(path)
}

/// What a walk has found and what it has still to find.
pub open spec fn covered(
    found: Seq<Seq<char>>,
    pending: Seq<(Seq<char>, Node)>,
    unmanaged: Seq<Seq<char>>,
) -> Set<Seq<char>> {
    Set::new(|path: Seq<char>| found.contains(path) || ahead(pending, unmanaged, path))
}

proof fn lemma_kept_paths(
    dir: Seq<char>,
    list: Seq<EntryView>,
    unmanaged: Seq<Seq<char>>,
    path: Seq<char>,
)
    ensures
        kept_paths(dir, list, unmanaged).contains(path) <==> exists|i: int|
            0 <= i < list.len() && !excluded(
                path_join(dir, (#[trigger] list[i]).name),
                unmanaged,
            ) && path == path_join(dir, list[i].name),
    decreases list.len(),
{
    if list.len() > 0 {
        let front = list.drop_last();
        lemma_kept_paths(dir, front, unmanaged, path);
        let before = kept_paths(dir, front, unmanaged);
        let all = kept_paths(dir, list, unmanaged);
        let child = path_join(dir, list.last().name);
        if before.contains(path) {
            let k = choose|k: int| 0 <= k < before.len() && before[k] == path;
            assert(all[k] == path);
            let i = choose|i: int|
                0 <= i < front.len() && !excluded(
                    path_join(dir, (#[trigger] front[i]).name),
                    unmanaged,
                ) && path == path_join(dir, front[i].name);
            assert(list[i] == front[i]);
        }
        if !excluded(child, unmanaged) && path == child {
            assert(all[before.len() as int] == path);
            assert(list[list.len() - 1] == list.last());
        }
        if all.contains(path) && !before.contains(path) {
            let k = choose|k: int| 0 <= k < all.len() && all[k] == path;
            if k < before.len() {
                assert(before[k] == path);
            }
            assert(path == child && !excluded(child, unmanaged));
            assert(list[list.len() - 1] == list.last());
        }
        if exists|i: int|
            0 <= i < list.len() && !excluded(
                path_join(dir, (#[trigger] list[i]).name),
                unmanaged,
            ) && path == path_join(dir, list[i].name) {
            let i = choose|i: int|
                0 <= i < list.len() && !excluded(
                    path_join(dir, (#[trigger] list[i]).name),
                    unmanaged,
                ) && path == path_join(dir, list[i].name);
            if i < front.len() {
                assert(front[i] == list[i]);
            }
        }
    }
}

/// `item` is a directory of the listing that takes part.
pub open spec fn is_kept_dir(
    dir: Seq<char>,
    list: Seq<EntryView>,
    node: Node,
    unmanaged: Seq<Seq<char>>,
    item: (Seq<char>, Node),
) -> bool {
    exists|i: int|
        0 <= i < list.len() && (#[trigger] list[i]).kind == Kind::Directory && !excluded(
            path_join(dir, list[i].name),
            unmanaged,
        ) && item == (path_join(dir, list[i].name), inside(node)[list[i].name])
}

/// The directories of a listing that take part are those that `kept_nodes`
/// gives.
pub proof fn lemma_kept_nodes(
    dir: Seq<char>,
    list: Seq<EntryView>,
    node: Node,
    unmanaged: Seq<Seq<char>>,
)
    ensures
        forall|i: int|
            0 <= i < list.len() && (#[trigger] list[i]).kind == Kind::Directory && !excluded(
                path_join(dir, list[i].name),
                unmanaged,
            ) ==> kept_nodes(dir, list, node, unmanaged).contains(
                (path_join(dir, list[i].name), inside(node)[list[i].name]),
            ),
        forall|k: int|
            0 <= k < kept_nodes(dir, list, node, unmanaged).len() ==> is_kept_dir(
                dir,
                list,
                node,
                unmanaged,
                #[trigger] kept_nodes(dir, list, node, unmanaged)[k],
            ),
        kept_dirs(dir, list, unmanaged) == Seq::new(
            kept_nodes(dir, list, node, unmanaged).len(),
            |k: int| kept_nodes(dir, list, node, unmanaged)[k].0,
        ),
    decreases list.len(),
{
    let all = kept_nodes(dir, list, node, unmanaged);
    if list.len() > 0 {
        let front = list.drop_last();
        lemma_kept_nodes(dir, front, node, unmanaged);
        let before = kept_nodes(dir, front, node, unmanaged);
        assert forall|i: int|
            0 <= i < list.len() && (#[trigger] list[i]).kind == Kind::Directory && !excluded(
                path_join(dir, list[i].name),
                unmanaged,
            ) implies all.contains((path_join(dir, list[i].name), inside(node)[list[i].name])) by {
            let item = (path_join(dir, list[i].name), inside(node)[list[i].name]);
            if i < front.len() {
                assert(front[i] == list[i]);
                assert(before.contains(item));
                let k = choose|k: int| 0 <= k < before.len() && before[k] == item;
                assert(all[k] == item);
            } else {
                assert(all[before.len() as int] == item);
            }
        }
        assert forall|k: int| 0 <= k < all.len() implies is_kept_dir(
            dir,
            list,
            node,
            unmanaged,
            #[trigger] all[k],
        ) by {
            if k < before.len() {
                assert(all[k] == before[k]);
                assert(is_kept_dir(dir, front, node, unmanaged, before[k]));
                let i = choose|i: int|
                    0 <= i < front.len() && (#[trigger] front[i]).kind == Kind::Directory
                        && !excluded(path_join(dir, front[i].name), unmanaged) && before[k] == (
                        path_join(dir, front[i].name),
                        inside(node)[front[i].name],
                    );
                assert(list[i] == front[i]);
            } else {
                assert(list[list.len() - 1] == list.last());
            }
        }
        assert(kept_dirs(dir, list, unmanaged) =~= Seq::new(all.len(), |k: int| all[k].0));
    } else {
        assert(kept_dirs(dir, list, unmanaged) =~= Seq::new(all.len(), |k: int| all[k].0));
    }
}

/// One step of a walk: reading a directory moves what is visible in it from
/// what is ahead to what is found, and loses none of it.
pub proof fn lemma_walk_step(
    found: Seq<Seq<char>>,
    pending: Seq<(Seq<char>, Node)>,
    dir: Seq<char>,
    node: Node,
    list: Seq<EntryView>,
    unmanaged: Seq<Seq<char>>,
)
    requires
        node is Directory,
        lists_entries(list, node),
    ensures
        covered(
            found + kept_paths(dir, list, unmanaged),
            pending + kept_nodes(dir, list, node, unmanaged),
            unmanaged,
        ) == covered(found, pending.push((dir, node)), unmanaged),
        kept_dirs(dir, list, unmanaged) == Seq::new(
            kept_nodes(dir, list, node, unmanaged).len(),
            |k: int| kept_nodes(dir, list, node, unmanaged)[k].0,
        ),
{
    let paths = kept_paths(dir, list, unmanaged);
    let nodes = kept_nodes(dir, list, node, unmanaged);
    let after = covered(found + paths, pending + nodes, unmanaged);
    let before = covered(found, pending.push((dir, node)), unmanaged);
    lemma_kept_nodes(dir, list, node, unmanaged);
    assert forall|path: Seq<char>| #[trigger] after.contains(path) <==> before.contains(path) by {
        lemma_kept_paths(dir, list, unmanaged, path);
        let entries = inside(node);
        let more = pending + nodes;
        let waiting = pending.push((dir, node));
        if after.contains(path) {
            if (found + paths).contains(path) {
                let k = choose|k: int| 0 <= k < (found + paths).len() && (found + paths)[k] == path;
                if k < found.len() {
                    assert(found[k] == path);
                } else {
                    assert(paths[k - found.len()] == path);
                    let i = choose|i: int|
                        0 <= i < list.len() && !excluded(
                            path_join(dir, (#[trigger] list[i]).name),
                            unmanaged,
                        ) && path == path_join(dir, list[i].name);
                    assert(entries.dom().contains(list[i].name));
                    assert(visible(node, dir, unmanaged).contains(path));
                    assert(waiting[pending.len() as int] == (dir, node));
                }
            } else {
                let k = choose|k: int|
                    0 <= k < more.len() && visible(
                        (#[trigger] more[k]).1,
                        more[k].0,
                        unmanaged,
                    ).contains(path);
                if k < pending.len() {
                    assert(waiting[k] == more[k]);
                } else {
                    assert(more[k] == nodes[k - pending.len()]);
                    assert(is_kept_dir(dir, list, node, unmanaged, nodes[k - pending.len()]));
                    let i = choose|i: int|
                        0 <= i < list.len() && (#[trigger] list[i]).kind == Kind::Directory
                            && !excluded(path_join(dir, list[i].name), unmanaged) && nodes[k
                            - pending.len()] == (
                            path_join(dir, list[i].name),
                            inside(node)[list[i].name],
                        );
                    assert(entries.dom().contains(list[i].name));
                    assert(visible(node, dir, unmanaged).contains(path));
                    assert(waiting[pending.len() as int] == (dir, node));
                }
            }
        }
        if before.contains(path) {
            if found.contains(path) {
                let k = choose|k: int| 0 <= k < found.len() && found[k] == path;
                assert((found + paths)[k] == path);
            } else {
                let k = choose|k: int|
                    0 <= k < waiting.len() && visible(
                        (#[trigger] waiting[k]).1,
                        waiting[k].0,
                        unmanaged,
                    ).contains(path);
                if k < pending.len() {
                    assert(more[k] == waiting[k]);
                } else {
                    let name = choose|name: Seq<char>| #[trigger]
                        entries.dom().contains(name) && !excluded(path_join(dir, name), unmanaged)
                            && (path == path_join(dir, name) || (entries[name] is Directory
                            && visible(
                            entries[name],
                            path_join(dir, name),
                            unmanaged,
                        ).contains(path)));
                    let i = choose|i: int| 0 <= i < list.len() && (#[trigger] list[i]).name == name;
                    if path == path_join(dir, name) {
                        assert(paths.contains(path));
                        let m = choose|m: int| 0 <= m < paths.len() && paths[m] == path;
                        assert((found + paths)[found.len() + m] == path);
                    } else {
                        assert(kind_of(entries[list[i].name]) == list[i].kind);
                        let item = (path_join(dir, name), entries[name]);
                        assert(nodes.contains(item));
                        let m = choose|m: int| 0 <= m < nodes.len() && nodes[m] == item;
                        assert(more[pending.len() + m] == item);
                    }
                }
            }
        }
    }
    assert(after =~= before);
}

/// A walk that starts at the root has all that is visible ahead of it, and
/// one that has nothing left to read has found it all.
pub proof fn lemma_walk_ends(root: Node, found: Seq<Seq<char>>, unmanaged: Seq<Seq<char>>)
    requires
        covered(found, Seq::empty(), unmanaged) == covered(
            Seq::empty(),
            seq![(""@, root)],
            unmanaged,
        ),
    ensures
        forall|path: Seq<char>| #[trigger]
            found.contains(path) <==> visible(root, ""@, unmanaged).contains(path),
{
    let start = seq![(""@, root)];
    assert forall|path: Seq<char>| #[trigger] found.contains(path) <==> visible(
        root,
        ""@,
        unmanaged,
    ).contains(path) by {
        assert(covered(found, Seq::empty(), unmanaged).contains(path) <==> found.contains(path));
        if visible(root, ""@, unmanaged).contains(path) {
            assert(visible(start[0].1, start[0].0, unmanaged).contains(path));
            assert(ahead(start, unmanaged, path));
            assert(covered(Seq::empty(), start, unmanaged).contains(path));
        }
        if found.contains(path) {
            assert(covered(Seq::empty(), start, unmanaged).contains(path));
            assert(ahead(start, unmanaged, path));
        }
    }
}

} // verus!
